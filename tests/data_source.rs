use sequencer_data_source::consensus::StateView;
use sequencer_data_source::fetch::{verify_reply, Fetch, FetchAction, PeerReply};
use sequencer_data_source::options::{Backend, DataSourceOptions, FsOptions, Options, Query, SqlOptions};
use sequencer_data_source::provider::{provider, Provider};
use sequencer_data_source::signatures::StateSignatures;
use sequencer_data_source::storage::{DataSource, DataSourceError, SequencerDataSource};

fn peers(names: &[&str]) -> Provider {
    provider(names.iter().map(|s| s.to_string()).collect())
}

fn fetched(commitment: &[u8], payload: &[u8]) -> PeerReply {
    PeerReply::Fetched { commitment: commitment.to_vec(), payload: payload.to_vec() }
}

#[test]
fn sql_backend_enables_only_its_module() {
    let mut opt = Options::new(8080);
    opt.status = true;
    let sql = SqlOptions { uri: "postgres://localhost/seq".to_string() };
    let r = sql.enable_query_module(opt, Query { peers: vec!["http://a".to_string()] });
    assert_eq!(r.port, 8080);
    assert!(r.status);
    assert!(!r.submit);
    assert!(r.fs.is_none());
    let m = r.sql.expect("sql module enabled");
    assert_eq!(m.sql.uri, "postgres://localhost/seq");
    assert_eq!(m.query.peers, vec!["http://a".to_string()]);
}

#[test]
fn fs_backend_enables_only_its_module() {
    let opt = Options::new(9000);
    let backend = Backend::Fs(FsOptions { path: "/var/seq".to_string() });
    let r = backend.enable_query_module(opt, Query { peers: vec![] });
    assert_eq!(r.port, 9000);
    assert!(r.sql.is_none());
    assert_eq!(r.fs.expect("fs module enabled").fs.path, "/var/seq");
}

#[test]
fn provider_keeps_peer_order() {
    let p = peers(&["http://a", "http://b", "http://c"]);
    assert_eq!(p.len(), 3);
    assert_eq!(p.peer(0), "http://a");
    assert_eq!(p.peer(1), "http://b");
    assert_eq!(p.peer(2), "http://c");
    assert_eq!(provider(vec![]).len(), 0);
}

#[test]
fn verify_reply_checks_commitment() {
    let expected = vec![1u8, 2, 3];
    assert!(!verify_reply(&expected, &PeerReply::Failed));
    assert!(!verify_reply(&expected, &fetched(&[1, 2, 4], b"x")));
    assert!(!verify_reply(&expected, &fetched(&[1, 2], b"x")));
    assert!(verify_reply(&expected, &fetched(&[1, 2, 3], b"x")));
}

#[test]
fn fetch_stops_at_first_verified_peer() {
    let p = peers(&["a", "b", "c"]);
    let (mut f, first) = Fetch::start(&p, vec![7]);
    assert_eq!(first, FetchAction::Query(0));
    assert_eq!(f.on_reply(&PeerReply::Failed), FetchAction::Query(1));
    assert_eq!(f.on_reply(&fetched(&[7], b"block")), FetchAction::Accept(1));
    assert!(f.is_finished());
}

#[test]
fn fetch_exhausts_after_every_peer() {
    let p = peers(&["a", "b", "c"]);
    let (mut f, first) = Fetch::start(&p, vec![7]);
    assert_eq!(first, FetchAction::Query(0));
    assert_eq!(f.on_reply(&fetched(&[8], b"wrong")), FetchAction::Query(1));
    assert!(!f.is_finished());
    assert_eq!(f.on_reply(&PeerReply::Failed), FetchAction::Query(2));
    assert!(!f.is_finished());
    assert_eq!(f.on_reply(&PeerReply::Failed), FetchAction::Exhausted);
    assert!(f.is_finished());
}

#[test]
fn fetch_without_peers_is_not_found() {
    let (f, first) = Fetch::start(&Provider::new(), vec![7]);
    assert_eq!(first, FetchAction::Exhausted);
    assert!(f.is_finished());
}

#[test]
fn fresh_store_serves_every_group() {
    let mut ds = DataSource::new(peers(&["a"]));
    assert_eq!(ds.provider().len(), 1);
    assert_eq!(ds.committed_version(), 0);
    assert!(ds.get_block(0).is_none());
    assert!(ds.get_path(0, &vec![]).is_none());
    assert_eq!(ds.store_state(vec![1], vec![0, 1], 0), Ok(()));
    assert_eq!(ds.ingest(0, vec![9]), Ok(()));
    assert_eq!(ds.commit(vec![]), Ok(()));
    assert_eq!(ds.committed_version(), 1);
}

#[test]
fn committed_blocks_read_back() {
    let mut ds = DataSource::new(Provider::new());
    let batch: Vec<(u64, Vec<u8>)> = (1..=5u64).map(|h| (h, vec![h as u8; h as usize])).collect();
    assert_eq!(ds.commit(batch.clone()), Ok(()));
    for (h, b) in &batch {
        assert_eq!(ds.get_block(*h), Some(b));
    }
    assert!(ds.get_block(6).is_none());
}

#[test]
fn ingest_is_idempotent_and_refuses_conflicts() {
    let mut ds = DataSource::new(Provider::new());
    assert_eq!(ds.ingest(3, vec![1, 2]), Ok(()));
    assert_eq!(ds.ingest(3, vec![1, 2]), Ok(()));
    assert_eq!(ds.ingest(3, vec![1, 3]), Err(DataSourceError::IngestionConflict));
    assert_eq!(ds.get_block(3), Some(&vec![1, 2]));
}

#[test]
fn conflicting_batch_applies_nothing() {
    let mut ds = DataSource::new(Provider::new());
    assert_eq!(ds.ingest(2, vec![2]), Ok(()));
    let batch = vec![(1u64, vec![1u8]), (2u64, vec![9u8]), (3u64, vec![3u8])];
    assert_eq!(ds.commit(batch), Err(DataSourceError::IngestionConflict));
    assert!(ds.get_block(1).is_none());
    assert!(ds.get_block(3).is_none());
    assert_eq!(ds.get_block(2), Some(&vec![2]));
    assert_eq!(ds.committed_version(), 0);

    let inner = vec![(4u64, vec![4u8]), (4u64, vec![5u8])];
    assert_eq!(ds.commit(inner), Err(DataSourceError::IngestionConflict));
    assert!(ds.get_block(4).is_none());
    assert_eq!(ds.commit(vec![(4u64, vec![4u8]), (4u64, vec![4u8])]), Ok(()));
    assert_eq!(ds.get_block(4), Some(&vec![4]));
}

#[test]
fn storing_a_path_twice_keeps_one_record() {
    let mut ds = DataSource::new(Provider::new());
    assert_eq!(ds.store_state(vec![5, 6], vec![1, 0, 2], 10), Ok(()));
    assert_eq!(ds.store_state(vec![5, 6], vec![1, 0, 2], 10), Ok(()));
    assert_eq!(ds.get_path(10, &vec![1, 0, 2]), Some(&vec![5, 6]));
    assert!(ds.get_path(11, &vec![1, 0, 2]).is_none());
    assert!(ds.get_path(10, &vec![1, 0]).is_none());
    assert_eq!(ds.store_state(vec![7], vec![1, 0, 2], 10), Ok(()));
    assert_eq!(ds.get_path(10, &vec![1, 0, 2]), Some(&vec![7]));
}

#[test]
fn decided_views_leave_the_undecided_set() {
    let mut sv = StateView::new("s4".to_string(), 4);
    assert!(!sv.propose(4, "x".to_string()));
    assert!(sv.propose(5, "s5".to_string()));
    assert!(sv.propose(6, "s6".to_string()));
    assert!(sv.propose(7, "s7".to_string()));
    assert!(!sv.propose(6, "again".to_string()));
    assert_eq!(sv.get_undecided_state(6), Some(&"s6".to_string()));
    assert!(sv.decide(6));
    assert_eq!(sv.get_decided_state(), "s6");
    assert_eq!(sv.get_decided_view(), 6);
    assert!(sv.get_undecided_state(5).is_none());
    assert!(sv.get_undecided_state(6).is_none());
    assert_eq!(sv.get_undecided_state(7), Some(&"s7".to_string()));
    assert!(!sv.decide(6));
    assert!(sv.get_undecided_state(9).is_none());
}

#[test]
fn stale_views_are_discarded() {
    let mut sv = StateView::new(0u32, 0);
    assert!(sv.propose(1, 10));
    assert!(sv.propose(2, 20));
    assert!(sv.propose(3, 30));
    sv.discard_stale(0);
    assert_eq!(sv.get_undecided_state(1), Some(&10));
    sv.discard_stale(3);
    assert!(sv.get_undecided_state(1).is_none());
    assert!(sv.get_undecided_state(2).is_none());
    assert_eq!(sv.get_undecided_state(3), Some(&30));
    assert_eq!(sv.get_decided_state(), &0);
}

#[test]
fn missing_block_is_repaired_from_second_peer() {
    let mut ds = DataSource::new(peers(&["http://peer-a", "http://peer-b"]));
    for h in 1..=10u64 {
        assert_eq!(ds.ingest(h, vec![h as u8]), Ok(()));
    }
    assert!(ds.get_block(11).is_none());
    let commitment = vec![0xb1, 0x0c];
    let (mut f, first) = Fetch::start(ds.provider(), commitment.clone());
    assert_eq!(first, FetchAction::Query(0));
    let corrupted = fetched(&[0xde, 0xad], &[0]);
    assert_eq!(f.on_reply(&corrupted), FetchAction::Query(1));
    let valid = fetched(&commitment, &[11]);
    assert_eq!(f.on_reply(&valid), FetchAction::Accept(1));
    if let PeerReply::Fetched { payload, .. } = valid {
        assert_eq!(ds.ingest(11, payload), Ok(()));
    }
    assert_eq!(ds.get_block(11), Some(&vec![11]));
}

#[test]
fn state_signatures_by_height() {
    let mut sigs = StateSignatures::new();
    assert!(sigs.get_state_signature(1).is_none());
    sigs.add_signature(1, vec![0xaa]);
    sigs.add_signature(2, vec![0xbb]);
    assert_eq!(sigs.get_state_signature(1), Some(&vec![0xaa]));
    assert_eq!(sigs.get_state_signature(2), Some(&vec![0xbb]));
    assert!(sigs.get_state_signature(3).is_none());
}
