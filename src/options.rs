//! Backend selection: each storage engine enables its own query module on a
//! service configuration and leaves every other setting as it was.
use vstd::prelude::*;

verus! {

/// Query-module settings shared by every storage engine.
pub struct Query {
    /// Peer query services that missing data is fetched from, in order.
    pub peers: Vec<String>,
}

/// Settings of the relational storage engine.
pub struct SqlOptions {
    pub uri: String,
}

/// Settings of the file-system storage engine.
pub struct FsOptions {
    pub path: String,
}

/// The relational query module: shared settings plus the engine's own.
pub struct SqlModule {
    pub query: Query,
    pub sql: SqlOptions,
}

/// The file-system query module: shared settings plus the engine's own.
pub struct FsModule {
    pub query: Query,
    pub fs: FsOptions,
}

/// Service configuration: the modules that the node serves.
pub struct Options {
    pub port: u16,
    pub status: bool,
    pub submit: bool,
    pub state: bool,
    pub sql: Option<SqlModule>,
    pub fs: Option<FsModule>,
}

impl SqlOptions {
    pub fn duplicate(&self) -> (r: SqlOptions)
        ensures
            r == *self,
    {
        SqlOptions { uri: self.uri.clone() }
    }
}

impl FsOptions {
    pub fn duplicate(&self) -> (r: FsOptions)
        ensures
            r == *self,
    {
        FsOptions { path: self.path.clone() }
    }
}

impl Options {
    /// A configuration that serves nothing on the given port.
    pub fn new(port: u16) -> (r: Options)
        ensures
            r == (Options { port, status: false, submit: false, state: false, sql: None, fs: None }),
    {
        Options { port, status: false, submit: false, state: false, sql: None, fs: None }
    }

    /// Enables the relational query module.
    pub fn query_sql(self, query: Query, sql: SqlOptions) -> (r: Options)
        ensures
            r == (Options { sql: Some(SqlModule { query, sql }), ..self }),
    {
        Options { sql: Some(SqlModule { query, sql }), ..self }
    }

    /// Enables the file-system query module.
    pub fn query_fs(self, query: Query, fs: FsOptions) -> (r: Options)
        ensures
            r == (Options { fs: Some(FsModule { query, fs }), ..self }),
    {
        Options { fs: Some(FsModule { query, fs }), ..self }
    }
}

/// Settings of one storage engine, which knows how to enable its query module.
pub trait DataSourceOptions: Sized {
    /// The configuration that enabling this engine's module on `opt` yields.
    spec fn enabled(&self, opt: Options, query: Query) -> Options;

    /// Enables this engine's query module on `opt`; no other field changes.
    fn enable_query_module(&self, opt: Options, query: Query) -> (r: Options)
        ensures
            r == self.enabled(opt, query),
            r.port == opt.port,
            r.status == opt.status,
            r.submit == opt.submit,
            r.state == opt.state,
    ;
}

impl DataSourceOptions for SqlOptions {
    open spec fn enabled(&self, opt: Options, query: Query) -> Options {
        Options { sql: Some(SqlModule { query, sql: *self }), ..opt }
    }

    fn enable_query_module(&self, opt: Options, query: Query) -> (r: Options) {
        opt.query_sql(query, self.duplicate())
    }
}

impl DataSourceOptions for FsOptions {
    open spec fn enabled(&self, opt: Options, query: Query) -> Options {
        Options { fs: Some(FsModule { query, fs: *self }), ..opt }
    }

    fn enable_query_module(&self, opt: Options, query: Query) -> (r: Options) {
        opt.query_fs(query, self.duplicate())
    }
}

/// The one storage engine that a node runs, chosen once at start-up.
pub enum Backend {
    Sql(SqlOptions),
    Fs(FsOptions),
}

impl DataSourceOptions for Backend {
    open spec fn enabled(&self, opt: Options, query: Query) -> Options {
        match self {
            Backend::Sql(o) => o.enabled(opt, query),
            Backend::Fs(o) => o.enabled(opt, query),
        }
    }

    fn enable_query_module(&self, opt: Options, query: Query) -> (r: Options) {
        match self {
            Backend::Sql(o) => o.enable_query_module(opt, query),
            Backend::Fs(o) => o.enable_query_module(opt, query),
        }
    }
}

} // verus!
