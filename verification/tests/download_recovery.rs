use chiral_network::models::{ChunkInfo, FileManifest, FileMetadata};
use chiral_network::p2p_download_recovery::{
    add_providers, add_providers_at, check_version, chunks_to_check, finalize, from_metadata,
    from_metadata_at, is_meta_file, meta_file_name, meta_path, parse_hashes, plan_recovery,
    plan_recovery_at, read_range, scan_entry, staging_path, sync_received, sync_received_at,
    to_file_meta, verdicts_fit, verify_all, verify_all_at, verify_chunk, ChunkMeta, ChunkRead,
    ChunkState, DlState, RecoverInfo, RecoveryErr, ScanAction, VerifyResult, CHUNK_SIZE,
    MAX_RESUMES,
};
use std::collections::HashSet;

fn progress(state: &DlState) -> f32 {
    let (done, whole) = state.progress_parts();
    done as f32 / whole as f32
}

#[test]
fn test_chunk_state_default() {
    let s: ChunkState = Default::default();
    assert_eq!(s, ChunkState::Pending);
}

#[test]
fn test_init_chunks() {
    let mut state = DlState::new(
        "abc".into(),
        "test.bin".into(),
        1024 * 1024,
        "/tmp/test.tmp".into(),
        "/dl/test.bin".into(),
    );

    state.init_chunks(None);

    assert_eq!(state.chunks.len(), 4);
    assert_eq!(state.chunks[0].offset, 0);
    assert_eq!(state.chunks[0].size, 256 * 1024);
    assert_eq!(state.chunks[3].offset, 3 * 256 * 1024);
}

#[test]
fn test_progress() {
    let mut state = DlState::new(
        "abc".into(),
        "test.bin".into(),
        1024 * 1024,
        "/tmp/test.tmp".into(),
        "/dl/test.bin".into(),
    );

    state.init_chunks(None);
    assert_eq!(progress(&state), 0.0);

    state.mark_downloaded(0);
    state.mark_verified(0);

    assert!((progress(&state) - 0.25).abs() < 0.01);
}

#[test]
fn test_pending_chunks() {
    let mut state = DlState::new(
        "abc".into(),
        "test.bin".into(),
        512 * 1024,
        "/tmp/test.tmp".into(),
        "/dl/test.bin".into(),
    );

    state.init_chunks(None);
    assert_eq!(state.pending_chunks().len(), 2);

    state.mark_downloaded(0);
    state.mark_verified(0);

    let pending = state.pending_chunks();
    assert_eq!(pending.len(), 1);
    assert_eq!(pending[0], 1);
}

#[test]
fn test_is_complete() {
    let mut state = DlState::new(
        "abc".into(),
        "test.bin".into(),
        256 * 1024,
        "/tmp/test.tmp".into(),
        "/dl/test.bin".into(),
    );

    state.init_chunks(None);
    assert!(!state.is_complete());

    state.mark_downloaded(0);
    assert!(!state.is_complete());

    state.mark_verified(0);
    assert!(state.is_complete());
}

#[test]
fn test_add_peer() {
    let mut state = DlState::new(
        "abc".into(),
        "test.bin".into(),
        1024,
        "/tmp/test.tmp".into(),
        "/dl/test.bin".into(),
    );

    state.add_peer("peer1".into());
    state.add_peer("peer2".into());
    state.add_peer("peer1".into());

    assert_eq!(state.peers.len(), 2);
}

#[test]
fn test_meta_path() {
    let path = meta_path("/dl/test.tmp");
    assert_eq!(path, "/dl/.test.tmp.chiral.p2p.meta.json");
}

#[test]
fn test_mark_failed_reduces_verified() {
    let mut state = DlState::new(
        "abc".into(),
        "test.bin".into(),
        512 * 1024,
        "/tmp/test.tmp".into(),
        "/dl/test.bin".into(),
    );

    state.init_chunks(None);
    state.mark_downloaded(0);
    state.mark_verified(0);

    let before = state.verified_bytes;
    state.mark_failed(0);

    assert!(state.verified_bytes < before);
    assert_eq!(state.chunks[0].state, ChunkState::Failed);
}

const HELLO: &str = "b94d27b9934d3e08a52e52d7da7dabfac484efe37a5380ee9088f7ace2efcde9";

fn download(file_size: u64, hashes: &[&str]) -> DlState {
    let mut state = DlState::new_at(
        "root".into(),
        "f.bin".into(),
        file_size,
        "/dl/f.tmp".into(),
        "/dl/f.bin".into(),
        100,
    );
    let list: Vec<String> = hashes.iter().map(|h| h.to_string()).collect();
    state.init_chunks(Some(&list));
    state
}

fn metadata() -> FileMetadata {
    FileMetadata {
        merkle_root: "root".into(),
        file_name: "f.bin".into(),
        file_size: 2 * CHUNK_SIZE + 1,
        seeders: vec!["p1".into(), "p2".into(), "p1".into()],
        is_encrypted: true,
        manifest: Some("{}".into()),
        download_path: None,
    }
}

fn manifest(hashes: &[&str]) -> FileManifest {
    let chunks = hashes
        .iter()
        .enumerate()
        .map(|(i, h)| ChunkInfo { index: i as u32, hash: h.to_string(), size: 1 })
        .collect();
    FileManifest { chunks }
}

fn states(state: &DlState) -> Vec<ChunkState> {
    state.chunks.iter().map(|c| c.state).collect()
}

#[test]
fn constants_are_what_they_are() {
    assert_eq!(CHUNK_SIZE, 262144);
    assert_eq!(MAX_RESUMES, 3);
    assert_eq!(DlState::VERSION, 1);
}

#[test]
fn errors_can_be_told_apart() {
    assert_eq!(format!("{:?}", RecoveryErr::VersionMismatch(2)), "VersionMismatch(2)");
    assert!(matches!(RecoveryErr::NoSpace.clone(), RecoveryErr::NoSpace));
}

#[test]
fn hashes_reach_as_far_as_they_go() {
    let state = download(2 * CHUNK_SIZE + 100, &["a", "b"]);
    let layout: Vec<(u32, u64, u32, Option<&str>)> =
        state.chunks.iter().map(|c| (c.idx, c.offset, c.size, c.hash.as_deref())).collect();
    assert_eq!(
        layout,
        vec![
            (0, 0, 262144, Some("a")),
            (1, 262144, 262144, Some("b")),
            (2, 524288, 100, None),
        ]
    );
    assert_eq!(download(CHUNK_SIZE, &["a", "b", "c"]).chunks.len(), 1);
    assert!(download(0, &["a"]).chunks.is_empty());
}

#[test]
fn a_new_download_knows_nothing_of_its_chunks_yet() {
    let state = DlState::new_at("r".into(), "n".into(), 5, "t".into(), "d".into(), 7);
    assert_eq!((state.version, state.file_size, state.verified_bytes), (1, 5, 0));
    assert!(state.chunks.is_empty() && state.peers.is_empty());
    assert_eq!(state.manifest, None);
    assert!(!state.encrypted);
    assert_eq!(state.updated_at, 7);
}

#[test]
fn only_a_pending_chunk_arrives() {
    let mut state = download(2 * CHUNK_SIZE, &[]);
    state.mark_failed_at(0, 5);
    state.mark_downloaded_at(0, 6);
    assert_eq!((state.chunks[0].state, state.updated_at), (ChunkState::Failed, 5));
    state.mark_downloaded_at(1, 7);
    assert_eq!((state.chunks[1].state, state.updated_at), (ChunkState::Downloaded, 7));
    assert_eq!(state.unverified_chunks(), vec![1]);
    assert_eq!(state.pending_chunks(), vec![0]);
}

#[test]
fn a_chunk_is_counted_once() {
    let mut state = download(CHUNK_SIZE + 10, &[]);
    state.mark_verified_at(1, 5);
    state.mark_verified_at(1, 6);
    state.mark_downloaded_at(1, 7);
    assert_eq!((state.verified_bytes, state.updated_at), (10, 5));
    assert_eq!(state.chunks[1].state, ChunkState::Verified);
    state.mark_verified_at(0, 8);
    assert_eq!(state.progress_parts(), (CHUNK_SIZE + 10, CHUNK_SIZE + 10));
    assert!(state.is_complete());
}

#[test]
fn failing_a_verified_chunk_undoes_it() {
    let mut state = download(CHUNK_SIZE + 10, &[]);
    state.mark_verified_at(0, 5);
    state.mark_verified_at(1, 5);
    state.mark_failed_at(1, 6);
    assert_eq!((state.verified_bytes, state.updated_at), (CHUNK_SIZE, 6));
    state.verified_bytes = 1;
    state.mark_failed_at(0, 7);
    assert_eq!(state.verified_bytes, 0);
    assert_eq!(state.pending_chunks(), vec![0, 1]);
}

#[test]
fn a_position_beyond_the_chunks_changes_nothing() {
    let mut state = download(10, &[]);
    state.mark_downloaded_at(1, 5);
    state.mark_verified_at(1, 5);
    state.mark_failed_at(u32::MAX, 5);
    assert_eq!((state.updated_at, states(&state)), (100, vec![ChunkState::Pending]));
}

#[test]
fn an_empty_file_is_never_complete() {
    let state = download(0, &[]);
    assert!(!state.is_complete());
    assert_eq!(state.progress_parts(), (1, 1));
}

#[test]
fn verdicts_fit_while_the_bytes_do() {
    let mut state = download(CHUNK_SIZE + 10, &["a", "b"]);
    state.mark_downloaded(0);
    state.mark_downloaded(1);
    state.verified_bytes = u64::MAX - 20;
    assert!(!verdicts_fit(&state, &[Ok(true), Ok(true)]));
    assert!(verdicts_fit(&state, &[Ok(false), Ok(true)]));
    state.verified_bytes = u64::MAX - 9;
    assert!(!verdicts_fit(&state, &[Err("x".to_string()), Ok(true)]));
    state.chunks[0].state = ChunkState::Verified;
    assert!(verdicts_fit(&state, &[Ok(false), Ok(true)]));
    assert!(!verdicts_fit(&state, &[Ok(true), Ok(true)]));
}

#[test]
fn peers_keep_their_order() {
    let mut state = download(1, &[]);
    state.add_peer_at("b".into(), 101);
    state.add_peer_at("a".into(), 102);
    state.add_peer_at("b".into(), 103);
    assert_eq!((state.peers.join(","), state.updated_at), ("b,a".to_string(), 102));
    add_providers_at(&mut state, &["c".to_string(), "a".to_string()], 104);
    assert_eq!((state.peers.join(","), state.updated_at), ("b,a,c".to_string(), 104));
    add_providers(&mut state, &["c".to_string()]);
    assert_eq!((state.peers.join(","), state.updated_at), ("b,a,c".to_string(), 104));
}

#[test]
fn a_copy_is_the_same() {
    let mut state = download(CHUNK_SIZE + 10, &["a"]);
    state.add_peer_at("p".into(), 6);
    assert_eq!(format!("{:?}", state.clone()), format!("{:?}", state));
}

#[test]
fn state_files_are_hidden_beside_the_partial_file() {
    assert_eq!(meta_path("f"), ".f.chiral.p2p.meta.json");
    assert_eq!(meta_path("/"), "/.dl.chiral.p2p.meta.json");
    assert_eq!(meta_file_name(None), ".dl.chiral.p2p.meta.json");
    assert_eq!(staging_path("/dl/f.tmp"), "/dl/.f.tmp.chiral.p2p.meta.tmp");
    assert!(is_meta_file(&meta_file_name(Some("x"))));
    assert!(!is_meta_file("x.json"));
    assert!(!is_meta_file(".f.tmp.chiral.p2p.meta.tmp"));
}

#[test]
fn a_later_version_is_not_understood() {
    let mut state = download(1, &[]);
    assert!(check_version(state.clone()).is_ok());
    state.version = 0;
    assert!(check_version(state.clone()).is_ok());
    state.version = 42;
    assert_eq!(check_version(state).unwrap_err(), "version 42 unsupported");
}

#[test]
fn a_scan_resumes_or_removes() {
    let mut state = download(10, &[]);
    assert!(matches!(scan_entry(Ok(state.clone())), ScanAction::Resume(_)));
    state.mark_verified(0);
    assert!(matches!(scan_entry(Ok(state)), ScanAction::RemoveMeta));
    assert!(matches!(scan_entry(Ok(download(0, &[]))), ScanAction::Resume(_)));
    assert!(matches!(scan_entry(Err("x".into())), ScanAction::Ignore));
}

fn chunk(hash: Option<&str>) -> ChunkMeta {
    ChunkMeta::new(4, 100, 11, hash.map(|h| h.to_string()))
}

#[test]
fn a_chunk_with_a_hash_is_read() {
    assert_eq!(read_range(&chunk(Some(""))), Some((100, 11)));
    assert_eq!(read_range(&chunk(None)), None);
}

#[test]
fn a_chunk_is_good_against_its_hash_in_either_case() {
    let data = ChunkRead::Data(b"hello world".to_vec());
    assert_eq!(verify_chunk(&chunk(Some(HELLO)), &data), Ok(true));
    assert_eq!(verify_chunk(&chunk(Some(&HELLO.to_uppercase())), &data), Ok(true));
    let other = ChunkRead::Data(b"hello_world".to_vec());
    assert_eq!(verify_chunk(&chunk(Some(HELLO)), &other), Ok(false));
    assert_eq!(verify_chunk(&chunk(Some("")), &data), Ok(false));
    assert_eq!(verify_chunk(&chunk(None), &ChunkRead::NotRead), Ok(true));
}

#[test]
fn a_chunk_that_cannot_be_reached_is_an_error() {
    let c = chunk(Some(HELLO));
    assert_eq!(
        verify_chunk(&c, &ChunkRead::OpenFailed("gone".into())),
        Err("open failed: gone".to_string())
    );
    assert_eq!(
        verify_chunk(&c, &ChunkRead::SeekFailed("bad".into())),
        Err("seek chunk 4 failed: bad".to_string())
    );
    assert_eq!(verify_chunk(&c, &ChunkRead::Short), Ok(false));
}

#[test]
fn a_check_settles_what_can_be_checked() {
    let mut state = download(6 * CHUNK_SIZE, &["a", "b", "c", "d", "e"]);
    for idx in [0, 1, 2, 5] {
        state.mark_downloaded(idx);
    }
    state.mark_verified(2);
    state.mark_failed(3);
    let asked: Vec<u32> = chunks_to_check(&state).iter().map(|c| c.idx).collect();
    assert_eq!(asked, vec![0, 1, 2]);
    let verdicts = [Ok(true), Err("x".to_string()), Ok(false)];
    let res = verify_all_at(&mut state, true, &verdicts, 500).unwrap();
    assert_eq!(res, VerifyResult { total: 6, verified: 1, failed: 2, skipped: 1 });
    assert_eq!(
        states(&state),
        vec![
            ChunkState::Verified,
            ChunkState::Failed,
            ChunkState::Failed,
            ChunkState::Failed,
            ChunkState::Pending,
            ChunkState::Downloaded,
        ]
    );
    assert_eq!((state.verified_bytes, state.updated_at), (CHUNK_SIZE, 500));
}

#[test]
fn a_check_follows_the_bytes_that_were_read() {
    let upper = HELLO.to_uppercase();
    let mut state = download(4 * CHUNK_SIZE, &[HELLO, upper.as_str(), HELLO, HELLO]);
    for idx in 0..4 {
        state.chunks[idx as usize].size = 11;
        state.mark_downloaded(idx);
    }
    let reads = [
        ChunkRead::Data(b"hello world".to_vec()),
        ChunkRead::Data(b"hello world".to_vec()),
        ChunkRead::Data(b"hello_world".to_vec()),
        ChunkRead::Short,
    ];
    let verdicts: Vec<Result<bool, String>> = chunks_to_check(&state)
        .iter()
        .zip(reads.iter())
        .map(|(c, r)| verify_chunk(c, r))
        .collect();
    let res = verify_all(&mut state, true, &verdicts).unwrap();
    assert_eq!(res, VerifyResult { total: 4, verified: 2, failed: 2, skipped: 0 });
    assert_eq!(
        states(&state),
        vec![
            ChunkState::Verified,
            ChunkState::Verified,
            ChunkState::Failed,
            ChunkState::Failed,
        ]
    );
    assert_eq!(state.verified_bytes, 22);
}

#[test]
fn publishing_comes_back() {
    let parsed = Some(manifest(&["a"]));
    let state = from_metadata_at(&metadata(), &parsed, "t".into(), "d".into(), 500);
    let mut again =
        from_metadata_at(&to_file_meta(&state), &parsed, "t".into(), "d".into(), 600);
    assert_eq!(again.updated_at, 600);
    again.updated_at = 500;
    assert_eq!(format!("{:?}", again), format!("{:?}", state));
}

#[test]
fn without_a_partial_file_all_is_skipped() {
    let mut state = download(2 * CHUNK_SIZE, &["a", "b"]);
    state.mark_verified_at(0, 5);
    let res = verify_all(&mut state, false, &[]).unwrap();
    assert_eq!(res, VerifyResult { total: 2, verified: 0, failed: 0, skipped: 2 });
    assert_eq!((state.verified_bytes, state.updated_at), (CHUNK_SIZE, 5));
    assert_eq!(VerifyResult::default().total, 0);
}

#[test]
fn a_summary_counts_what_is_to_be_fetched() {
    let mut state = download(3 * CHUNK_SIZE, &[]);
    state.mark_verified(0);
    state.mark_downloaded(1);
    state.add_peer("p".into());
    let info = RecoverInfo::from(&state);
    assert_eq!((info.merkle_root.as_str(), info.file_name.as_str()), ("root", "f.bin"));
    assert_eq!((info.file_size, info.verified_bytes), (3 * CHUNK_SIZE, CHUNK_SIZE));
    assert_eq!(info.pending_cnt, 1);
    assert_eq!(info.peers, vec!["p".to_string()]);
    assert_eq!((info.tmp_path.as_str(), info.dst_path.as_str()), ("/dl/f.tmp", "/dl/f.bin"));
}

#[test]
fn a_manifest_that_was_read_gives_hashes() {
    assert_eq!(
        parse_hashes(&Some(manifest(&["a", "b"]))),
        Some(vec!["a".to_string(), "b".to_string()])
    );
    assert_eq!(parse_hashes(&None), None);
}

#[test]
fn a_published_file_is_set_up() {
    let state =
        from_metadata_at(&metadata(), &Some(manifest(&["a"])), "t".into(), "d".into(), 500);
    assert_eq!((state.merkle_root.as_str(), state.file_name.as_str()), ("root", "f.bin"));
    assert_eq!((state.chunks.len(), state.file_size), (3, 2 * CHUNK_SIZE + 1));
    assert_eq!(state.chunks[0].hash.as_deref(), Some("a"));
    assert_eq!(state.chunks[1].hash, None);
    assert_eq!(state.peers, vec!["p1".to_string(), "p2".to_string()]);
    assert_eq!(state.manifest.as_deref(), Some("{}"));
    assert!(state.encrypted);
    assert_eq!(state.updated_at, 500);
}

#[test]
fn a_manifest_that_could_not_be_read_is_kept() {
    let state = from_metadata(&metadata(), &None, "t".into(), "d".into());
    assert!(state.chunks.iter().all(|c| c.hash.is_none()));
    assert_eq!(state.manifest.as_deref(), Some("{}"));
}

#[test]
fn a_published_file_can_be_published_again() {
    let mut meta = metadata();
    meta.seeders = vec!["p2".into(), "p1".into()];
    let state = from_metadata(&meta, &None, "t".into(), "d".into());
    let again = to_file_meta(&state);
    assert_eq!(again.merkle_root, meta.merkle_root);
    assert_eq!(again.file_name, meta.file_name);
    assert_eq!(again.file_size, meta.file_size);
    assert_eq!(again.seeders, meta.seeders);
    assert_eq!(again.is_encrypted, meta.is_encrypted);
    assert_eq!(again.manifest, meta.manifest);
    assert_eq!(again.download_path.as_deref(), Some("d"));
}

#[test]
fn chunks_arrive_in_sets() {
    let mut state = download(4 * CHUNK_SIZE, &[]);
    state.mark_verified(1);
    state.mark_failed(2);
    let received: HashSet<u32> = [0, 1, 2, 9, u32::MAX].into_iter().collect();
    sync_received_at(&mut state, &received, 500);
    assert_eq!(
        states(&state),
        vec![
            ChunkState::Downloaded,
            ChunkState::Verified,
            ChunkState::Failed,
            ChunkState::Pending,
        ]
    );
    assert_eq!(state.updated_at, 500);
}

#[test]
fn chunks_may_arrive_in_batches() {
    let mut one = download(4 * CHUNK_SIZE, &[]);
    let mut two = one.clone();
    sync_received(&mut one, &[0, 3].into_iter().collect());
    sync_received(&mut one, &[1].into_iter().collect());
    sync_received(&mut two, &[0, 1, 3].into_iter().collect());
    assert_eq!(states(&one), states(&two));
    let mut three = download(4 * CHUNK_SIZE, &[]);
    sync_received_at(&mut three, &HashSet::new(), 500);
    assert_eq!(three.updated_at, 500);
}

#[test]
fn a_plan_lists_what_is_to_be_fetched() {
    let mut state = download(3 * CHUNK_SIZE, &["a", "b", "c"]);
    state.mark_downloaded(0);
    state.mark_downloaded(1);
    let plan = plan_recovery(state.clone(), false, true, &[]).unwrap();
    assert_eq!(plan.to_fetch, vec![2]);
    assert!(!plan.verified && plan.verify_res.is_none());
    assert_eq!(plan.state.verified_bytes, 0);
    let plan = plan_recovery_at(state, true, true, &[Ok(true), Ok(false)], 500).unwrap();
    assert_eq!(plan.to_fetch, vec![1, 2]);
    assert!(plan.verified);
    assert_eq!(
        plan.verify_res,
        Some(VerifyResult { total: 3, verified: 1, failed: 1, skipped: 0 })
    );
    assert_eq!(plan.state.verified_bytes, CHUNK_SIZE);
}

#[test]
fn a_download_is_finished_where_its_partial_file_exists() {
    let state = download(1, &[]);
    let step = finalize(&state, true).ok().unwrap();
    assert_eq!((step.from.as_str(), step.to.as_str()), ("/dl/f.tmp", "/dl/f.bin"));
    assert_eq!(step.meta, "/dl/.f.tmp.chiral.p2p.meta.json");
    assert_eq!(finalize(&state, false).err().unwrap(), "tmp file missing: /dl/f.tmp");
}
