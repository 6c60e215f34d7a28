//! Data-access layer of a sequencing node: backend selection, missing-data
//! repair across peers, block and state-path storage, and the consensus view.
pub mod options;
pub mod provider;
pub mod fetch;
pub mod heights;
pub mod storage;
pub mod consensus;
pub mod signatures;
