use chiral_network::models::{ChunkInfo, FileManifest, FileMetadata};
use chiral_network::p2p_chunk_network::{
    chunks_to_check, compute_merkle_root, from_file_metadata, from_file_metadata_at, hash_chunk,
    meta_file_name, meta_path, query_providers, read_range, refresh_providers,
    refresh_providers_at, resume_recovery, resume_recovery_at, scan_entry, scan_target,
    staging_path, verdicts_fit, verify_all_chunks, verify_all_chunks_at, verify_chunk_from_disk,
    verify_chunk_hash, verify_merkle_root, ChunkMeta, ChunkNetErr, ChunkState, DiskRead, DlState,
    RecoverySvc, Start, VerifyResult, CHUNK_SIZE,
};

fn progress(state: &DlState) -> f32 {
    let (done, whole) = state.progress_parts();
    done as f32 / whole as f32
}

#[test]
fn test_hash_chunk() {
    let data = b"hello world";
    let hash = hash_chunk(data);
    assert_eq!(hash.len(), 64);
}

#[test]
fn test_verify_chunk_hash() {
    let data = b"test data";
    let hash = hash_chunk(data);
    assert!(verify_chunk_hash(data, &hash));
    assert!(!verify_chunk_hash(b"other data", &hash));
}

#[test]
fn test_compute_merkle_root() {
    let h1 = hash_chunk(b"chunk 0");
    let h2 = hash_chunk(b"chunk 1");
    let h3 = hash_chunk(b"chunk 2");

    let root = compute_merkle_root(&[h1.clone(), h2.clone(), h3.clone()]).unwrap();
    assert_eq!(root.len(), 64);

    assert!(verify_merkle_root(&root, &[h1, h2, h3]).unwrap());
}

#[test]
fn test_merkle_root_mismatch() {
    let h1 = hash_chunk(b"chunk 0");
    let h2 = hash_chunk(b"chunk 1");

    let root = compute_merkle_root(&[h1.clone(), h2.clone()]).unwrap();

    let h3 = hash_chunk(b"wrong");
    assert!(!verify_merkle_root(&root, &[h1, h3]).unwrap());
}

#[test]
fn test_dl_state_init() {
    let mut state = DlState::new(
        "abc".into(),
        "test.bin".into(),
        1024 * 1024,
        "/tmp/test.tmp".into(),
        "/dl/test.bin".into(),
    );

    state.init_chunks();
    assert_eq!(state.chunks.len(), 4);
}

#[test]
fn test_dl_state_progress() {
    let mut state = DlState::new(
        "abc".into(),
        "test.bin".into(),
        512 * 1024,
        "/tmp/test.tmp".into(),
        "/dl/test.bin".into(),
    );

    state.init_chunks();
    assert_eq!(progress(&state), 0.0);

    state.mark_downloaded(0);
    state.mark_verified(0);
    assert!(progress(&state) > 0.4 && progress(&state) < 0.6);

    state.mark_downloaded(1);
    state.mark_verified(1);
    assert_eq!(progress(&state), 1.0);
}

#[test]
fn test_chunk_meta_offset() {
    assert_eq!(ChunkMeta::offset_for(0), 0);
    assert_eq!(ChunkMeta::offset_for(1), CHUNK_SIZE);
    assert_eq!(ChunkMeta::offset_for(4), CHUNK_SIZE * 4);
}

#[test]
fn test_chunk_meta_size() {
    let file_size = CHUNK_SIZE * 2 + 100;
    assert_eq!(ChunkMeta::size_for(0, file_size), CHUNK_SIZE as u32);
    assert_eq!(ChunkMeta::size_for(1, file_size), CHUNK_SIZE as u32);
    assert_eq!(ChunkMeta::size_for(2, file_size), 100);
}

#[test]
fn test_providers() {
    let mut state = DlState::new(
        "abc".into(),
        "test.bin".into(),
        1024,
        "/tmp/test.tmp".into(),
        "/dl/test.bin".into(),
    );

    state.add_provider("peer1".into());
    state.add_provider("peer2".into());
    state.add_provider("peer1".into());

    assert_eq!(state.providers.len(), 2);
}

const HELLO: &str = "b94d27b9934d3e08a52e52d7da7dabfac484efe37a5380ee9088f7ace2efcde9";
const CHUNK_0: &str = "3887e4ff4cb117983b927fde9da0c0818813a3d587b053db40fe6d951f6a3f47";
const ROOT_OF_2: &str = "47d9759b9ab2b52268fb05bb498c5f695c326d38c9329d9c90bb44d39009c7d9";
const ROOT_OF_3: &str = "a2b9e9ef719decb81ac857b8a5dada2d2900d057d92688bbdb1a35a8624fcfab";
const ROOT_OF_5: &str = "5bc5ee2bbc492967798b06083aec34994b6871eeadf27867065f6a4e9ef3c5ad";
const ROOT_OF_4: &str = "5f17fc1718cc0265dfe96678499e86f08bffd19167cf1d9493b6581f9f147eec";

fn hashes(n: u32) -> Vec<String> {
    (0..n).map(|i| hash_chunk(format!("chunk {}", i).as_bytes())).collect()
}

fn manifest(list: &[String]) -> FileManifest {
    let chunks = list
        .iter()
        .enumerate()
        .map(|(i, hash)| ChunkInfo { index: i as u32, hash: hash.clone(), size: 7 })
        .collect();
    FileManifest { chunks }
}

fn download(file_size: u64) -> DlState {
    let mut state = DlState::new_at(
        "root".into(),
        "f.bin".into(),
        file_size,
        "/dl/f.tmp".into(),
        "/dl/f.bin".into(),
        100,
    );
    state.init_chunks();
    state
}

fn metadata() -> FileMetadata {
    FileMetadata {
        merkle_root: ROOT_OF_2.into(),
        file_name: "f.bin".into(),
        file_size: CHUNK_SIZE + 1,
        seeders: vec!["p1".into(), "p2".into(), "p1".into()],
        is_encrypted: true,
        manifest: None,
        download_path: None,
    }
}

fn states(state: &DlState) -> Vec<ChunkState> {
    state.chunks.iter().map(|c| c.state).collect()
}

#[test]
fn hashes_are_sha256_in_lower_case() {
    assert_eq!(hash_chunk(b"hello world"), HELLO);
    assert_eq!(
        hash_chunk(b""),
        "e3b0c44298fc1c149afbf4c8996fb92427ae41e4649b934ca495991b7852b855"
    );
    assert!(verify_chunk_hash(b"hello world", HELLO));
    assert!(!verify_chunk_hash(b"hello world", &HELLO.to_uppercase()));
    assert!(!verify_chunk_hash(b"hello world", ""));
}

#[test]
fn merkle_roots_are_exact() {
    assert_eq!(compute_merkle_root(&hashes(1)).unwrap(), CHUNK_0);
    assert_eq!(compute_merkle_root(&hashes(2)).unwrap(), ROOT_OF_2);
    assert_eq!(compute_merkle_root(&hashes(3)).unwrap(), ROOT_OF_3);
    assert_eq!(compute_merkle_root(&hashes(4)).unwrap(), ROOT_OF_4);
    assert_eq!(compute_merkle_root(&hashes(5)).unwrap(), ROOT_OF_5);
}

#[test]
fn merkle_root_depends_on_order_and_not_on_case() {
    let mut list = hashes(2);
    list.swap(0, 1);
    assert_ne!(compute_merkle_root(&list).unwrap(), ROOT_OF_2);
    let upper: Vec<String> = hashes(2).iter().map(|h| h.to_uppercase()).collect();
    assert_eq!(compute_merkle_root(&upper).unwrap(), ROOT_OF_2);
    assert!(!verify_merkle_root(&ROOT_OF_2.to_uppercase(), &upper).unwrap());
}

#[test]
fn own_root_is_the_only_one_that_verifies() {
    assert!(verify_merkle_root(ROOT_OF_3, &hashes(3)).unwrap());
    assert!(!verify_merkle_root(ROOT_OF_4, &hashes(3)).unwrap());
    assert!(!verify_merkle_root("", &hashes(3)).unwrap());
}

#[test]
fn no_hashes_is_a_missing_manifest() {
    assert!(matches!(compute_merkle_root(&[]), Err(ChunkNetErr::ManifestMissing)));
    assert!(matches!(verify_merkle_root("x", &[]), Err(ChunkNetErr::ManifestMissing)));
}

#[test]
fn what_is_no_hash_is_reported() {
    let message = |hash: &str| match compute_merkle_root(&[hash.to_string()]) {
        Err(ChunkNetErr::ParseErr(e)) => e,
        other => panic!("unexpected: {:?}", other),
    };
    assert_eq!(message("abc"), "Odd number of digits");
    assert_eq!(message("zz"), "Invalid character 'z' at position 0");
    assert_eq!(message("0g"), "Invalid character 'g' at position 1");
    assert_eq!(message("abcd"), "invalid hash len");
    assert_eq!(message(""), "invalid hash len");
    assert_eq!(message("\u{e9}"), "Invalid character '\u{c3}' at position 0");
}

#[test]
fn the_first_bad_hash_is_the_one_reported() {
    let list = vec![hash_chunk(b"a"), "abcd".to_string(), "abc".to_string()];
    match compute_merkle_root(&list) {
        Err(ChunkNetErr::ParseErr(e)) => assert_eq!(e, "invalid hash len"),
        other => panic!("unexpected: {:?}", other),
    }
}

#[test]
fn errors_say_what_they_are() {
    assert_eq!(ChunkNetErr::NotFound.to_string(), "not found");
    assert_eq!(ChunkNetErr::IoErr("disk".into()).to_string(), "io error: disk");
    let mismatch = ChunkNetErr::HashMismatch { idx: 12, expected: "aa".into(), got: "bb".into() };
    assert_eq!(mismatch.to_string(), "chunk 12 hash mismatch: aa != bb");
    assert_eq!(ChunkNetErr::MerkleInvalid.to_string(), "merkle root invalid");
    assert_eq!(ChunkNetErr::NoProviders.to_string(), "no providers found");
    assert_eq!(ChunkNetErr::ManifestMissing.to_string(), "manifest missing");
    assert_eq!(ChunkNetErr::ParseErr("x".into()).to_string(), "parse error: x");
}

#[test]
fn chunks_lie_end_to_end() {
    let state = download(CHUNK_SIZE * 2 + 100);
    let layout: Vec<(u32, u64, u32)> =
        state.chunks.iter().map(|c| (c.idx, c.offset, c.size)).collect();
    assert_eq!(layout, vec![(0, 0, 262144), (1, 262144, 262144), (2, 524288, 100)]);
    assert!(state.chunks.iter().all(|c| c.hash.is_empty() && c.state == ChunkState::Pending));
    assert!(download(0).chunks.is_empty());
    assert_eq!(download(1).chunks.len(), 1);
    assert_eq!(ChunkMeta::size_for(3, CHUNK_SIZE), 0);
    assert_eq!(ChunkMeta::offset_for(u32::MAX), 1125899906580480);
}

#[test]
fn a_new_download_knows_nothing_of_its_chunks() {
    let state = DlState::new_at("r".into(), "n".into(), 5, "t".into(), "d".into(), 7);
    assert_eq!((state.version, state.file_size, state.verified_bytes), (1, 5, 0));
    assert_eq!((state.merkle_root.as_str(), state.file_name.as_str()), ("r", "n"));
    assert_eq!((state.tmp_path.as_str(), state.dst_path.as_str()), ("t", "d"));
    assert!(state.chunks.is_empty() && state.providers.is_empty());
    assert_eq!(state.manifest_json, None);
    assert!(!state.encrypted);
    assert_eq!(state.updated_at, 7);
    assert!(DlState::new("r".into(), "n".into(), 5, "t".into(), "d".into()).updated_at > 7);
}

#[test]
fn a_manifest_gives_the_chunks() {
    let mut state = download(3 * CHUNK_SIZE);
    let list = FileManifest {
        chunks: vec![
            ChunkInfo { index: 2, hash: "aa".into(), size: 0x1_0000_0005 },
            ChunkInfo { index: 0, hash: "".into(), size: 9 },
        ],
    };
    state.init_from_manifest(&list, Some("{}".into()));
    let layout: Vec<(u32, u64, u32, &str)> =
        state.chunks.iter().map(|c| (c.idx, c.offset, c.size, c.hash.as_str())).collect();
    assert_eq!(layout, vec![(2, 524288, 5, "aa"), (0, 0, 9, "")]);
    assert_eq!(state.manifest_json.as_deref(), Some("{}"));
    assert_eq!(state.pending_chunks(), vec![2, 0]);
}

#[test]
fn only_a_chunk_that_has_arrived_is_verified() {
    let mut state = download(CHUNK_SIZE + 10);
    state.mark_verified_at(1, 5);
    assert_eq!((state.verified_bytes, state.updated_at), (0, 100));
    state.mark_downloaded_at(1, 5);
    state.mark_verified_at(1, 6);
    assert_eq!((state.verified_bytes, state.updated_at), (10, 6));
    state.mark_verified_at(1, 7);
    assert_eq!((state.verified_bytes, state.updated_at), (10, 6));
    assert_eq!(states(&state), vec![ChunkState::Pending, ChunkState::Verified]);
    assert_eq!(state.progress_parts(), (10, CHUNK_SIZE + 10));
}

#[test]
fn failing_undoes_verifying() {
    let mut state = download(CHUNK_SIZE + 10);
    state.mark_downloaded_at(1, 5);
    state.mark_verified_at(1, 6);
    state.mark_failed_at(1, 7);
    assert_eq!((state.verified_bytes, state.updated_at), (0, 7));
    assert_eq!(state.chunks[1].state, ChunkState::Failed);
    assert_eq!(state.pending_chunks(), vec![0, 1]);
    state.mark_failed(0);
    assert_eq!(state.verified_bytes, 0);
}

#[test]
fn failing_stops_at_zero() {
    let mut state = download(10);
    state.mark_downloaded(0);
    state.mark_verified(0);
    state.verified_bytes = 3;
    state.mark_failed(0);
    assert_eq!(state.verified_bytes, 0);
}

#[test]
fn a_verified_chunk_that_arrives_again_stays_counted() {
    let mut state = download(10);
    state.mark_downloaded(0);
    state.mark_verified(0);
    state.mark_downloaded(0);
    assert_eq!((state.verified_bytes, states(&state)), (10, vec![ChunkState::Downloaded]));
    state.mark_verified(0);
    assert_eq!(state.verified_bytes, 20);
}

#[test]
fn a_position_without_a_chunk_changes_nothing() {
    let mut state = download(10);
    state.mark_downloaded_at(1, 5);
    state.mark_verified_at(1, 5);
    state.mark_failed_at(1, 5);
    assert_eq!((state.updated_at, states(&state)), (100, vec![ChunkState::Pending]));
}

#[test]
fn a_download_without_chunks_is_complete() {
    assert!(download(0).is_complete());
    assert_eq!(download(0).progress_parts(), (1, 1));
    let mut state = download(10);
    assert!(!state.is_complete());
    state.mark_downloaded(0);
    assert!(!state.is_complete());
    assert!(state.pending_chunks().is_empty());
    state.mark_verified(0);
    assert!(state.is_complete());
}

#[test]
fn verdicts_fit_while_the_count_does() {
    let mut state = download(CHUNK_SIZE + 10);
    state.mark_downloaded(0);
    state.mark_downloaded(1);
    state.verified_bytes = u64::MAX - 20;
    assert!(!verdicts_fit(&state, &[Ok(true), Ok(true)]));
    assert!(verdicts_fit(&state, &[Ok(false), Ok(true)]));
    state.verified_bytes = u64::MAX - 9;
    assert!(!verdicts_fit(&state, &[Ok(false), Ok(true)]));
    assert!(verdicts_fit(&state, &[Ok(false), Err(ChunkNetErr::NotFound)]));
}

#[test]
fn providers_keep_their_order() {
    let mut state = download(1);
    state.add_provider_at("b".into(), 101);
    state.add_provider_at("a".into(), 102);
    state.add_provider_at("b".into(), 103);
    assert_eq!(state.providers, vec!["b".to_string(), "a".to_string()]);
    assert_eq!(state.updated_at, 102);
}

#[test]
fn a_copy_is_the_same_download() {
    let mut state = download(CHUNK_SIZE + 10);
    state.mark_downloaded_at(1, 5);
    state.add_provider_at("p".into(), 6);
    let copy = state.clone();
    assert_eq!(format!("{:?}", copy), format!("{:?}", state));
}

#[test]
fn state_files_lie_beside_the_partial_file() {
    assert_eq!(meta_path("/dl/f.tmp"), "/dl/f.tmp.chiral.chunk.meta.json");
    assert_eq!(meta_path("f"), "f.chiral.chunk.meta.json");
    assert_eq!(meta_path("/"), "/download.chiral.chunk.meta.json");
    assert_eq!(meta_file_name(None), "download.chiral.chunk.meta.json");
    assert_eq!(meta_file_name(Some("x")), "x.chiral.chunk.meta.json");
    assert_eq!(staging_path("/dl/f.tmp"), "/dl/f.tmp.chiral.chunk.meta.tmp");
}

#[test]
fn a_scan_leads_back_to_the_partial_file() {
    let meta = meta_file_name(Some("f.tmp"));
    let path = format!("/dl/{}", meta);
    assert_eq!(scan_target(Some("json"), &path, Some(&meta)).as_deref(), Some("f.tmp"));
    assert_eq!(scan_target(Some("tmp"), &path, Some(&meta)), None);
    assert_eq!(scan_target(None, &path, Some(&meta)), None);
    assert_eq!(scan_target(Some("json"), "/dl/a.json", Some("a.json")), None);
    assert_eq!(scan_target(Some("json"), &path, None).as_deref(), Some(""));
}

#[test]
fn a_scan_leads_back_to_a_file_named_like_a_state_file() {
    let name = "a.chiral.chunk.meta.json";
    let meta = meta_file_name(Some(name));
    assert_eq!(scan_target(Some("json"), &meta, Some(&meta)).as_deref(), Some(name));
}

#[test]
fn a_scan_takes_any_json_file_below_a_fitting_directory() {
    let path = "/x.chiral.chunk.meta/a.json";
    assert_eq!(scan_target(Some("json"), path, Some("a.json")).as_deref(), Some("a.json"));
}

#[test]
fn a_scan_offers_what_is_not_complete() {
    assert!(scan_entry(Ok(download(10))).is_some());
    assert!(scan_entry(Ok(download(0))).is_none());
    assert!(scan_entry(Err(ChunkNetErr::NotFound)).is_none());
}

fn chunk(hash: &str) -> ChunkMeta {
    ChunkMeta::new(4, 100, 11, hash.to_string())
}

#[test]
fn a_chunk_is_read_where_it_has_a_hash() {
    assert_eq!(read_range(&chunk(HELLO)), Some((100, 11)));
    assert_eq!(read_range(&chunk("")), None);
}

#[test]
fn a_chunk_is_good_against_its_hash() {
    let data = DiskRead::Data(b"hello world".to_vec());
    assert!(verify_chunk_from_disk(&chunk(HELLO), &data).unwrap());
    let other = DiskRead::Data(b"hello_world".to_vec());
    assert!(!verify_chunk_from_disk(&chunk(HELLO), &other).unwrap());
    assert!(!verify_chunk_from_disk(&chunk(&HELLO.to_uppercase()), &data).unwrap());
    assert!(verify_chunk_from_disk(&chunk(""), &DiskRead::NotRead).unwrap());
}

#[test]
fn a_chunk_that_cannot_be_read_is_an_error() {
    match verify_chunk_from_disk(&chunk(HELLO), &DiskRead::Failed("gone".into())) {
        Err(ChunkNetErr::IoErr(e)) => assert_eq!(e, "gone"),
        other => panic!("unexpected: {:?}", other),
    }
}

#[test]
fn a_check_settles_what_has_arrived() {
    let mut state = download(5 * CHUNK_SIZE);
    for idx in [0, 1, 2, 4] {
        state.mark_downloaded(idx);
    }
    state.mark_verified(0);
    let asked: Vec<u32> = chunks_to_check(&state).iter().map(|c| c.idx).collect();
    assert_eq!(asked, vec![1, 2, 4]);
    let verdicts = [Ok(true), Ok(false), Err(ChunkNetErr::NotFound)];
    let res = verify_all_chunks_at(&mut state, &verdicts, 500).unwrap();
    assert_eq!(res, VerifyResult { verified: 1, failed: 2 });
    assert_eq!(
        states(&state),
        vec![
            ChunkState::Verified,
            ChunkState::Verified,
            ChunkState::Failed,
            ChunkState::Pending,
            ChunkState::Failed,
        ]
    );
    assert_eq!(state.verified_bytes, 2 * CHUNK_SIZE);
    assert_eq!(state.updated_at, 500);
    assert_eq!(state.pending_chunks(), vec![2, 3, 4]);
}

#[test]
fn a_check_follows_the_bytes() {
    let mut state = download(0);
    let mut list = manifest(&[HELLO.to_string(), HELLO.to_string(), HELLO.to_string()]);
    list.chunks.push(ChunkInfo { index: 3, hash: "".into(), size: 11 });
    for info in &mut list.chunks {
        info.size = 11;
    }
    state.init_from_manifest(&list, None);
    for idx in 0..4 {
        state.mark_downloaded(idx);
    }
    let reads = [
        DiskRead::Data(b"hello world".to_vec()),
        DiskRead::Data(b"hello_world".to_vec()),
        DiskRead::Failed("gone".into()),
        DiskRead::NotRead,
    ];
    let verdicts: Vec<Result<bool, ChunkNetErr>> = chunks_to_check(&state)
        .iter()
        .zip(reads.iter())
        .map(|(c, r)| verify_chunk_from_disk(c, r))
        .collect();
    let res = verify_all_chunks(&mut state, &verdicts).unwrap();
    assert_eq!(res, VerifyResult { verified: 2, failed: 2 });
    assert_eq!(
        states(&state),
        vec![
            ChunkState::Verified,
            ChunkState::Failed,
            ChunkState::Failed,
            ChunkState::Verified,
        ]
    );
    assert_eq!(state.verified_bytes, 22);
}

#[test]
fn a_check_of_nothing_changes_nothing() {
    let mut state = download(CHUNK_SIZE);
    let res = verify_all_chunks(&mut state, &[]).unwrap();
    assert_eq!(res, VerifyResult { verified: 0, failed: 0 });
    assert_eq!(state.updated_at, 100);
}

#[test]
fn a_bad_chunk_takes_down_others_of_its_index() {
    let mut state = download(0);
    let list = FileManifest {
        chunks: vec![
            ChunkInfo { index: 0, hash: "aa".into(), size: 1 },
            ChunkInfo { index: 0, hash: "bb".into(), size: 2 },
        ],
    };
    state.init_from_manifest(&list, None);
    state.mark_downloaded(0);
    state.mark_downloaded(1);
    let res = verify_all_chunks(&mut state, &[Ok(true), Ok(false)]).unwrap();
    assert_eq!(res, VerifyResult { verified: 1, failed: 1 });
    assert_eq!(states(&state), vec![ChunkState::Failed, ChunkState::Downloaded]);
    assert_eq!(state.verified_bytes, 0);
}

#[test]
fn to_find_no_provider_is_an_error() {
    assert!(matches!(query_providers(vec![]), Err(ChunkNetErr::NoProviders)));
    assert_eq!(query_providers(vec!["a".into()]).unwrap(), vec!["a".to_string()]);
    let mut state = download(1);
    assert!(matches!(
        refresh_providers_at(&mut state, vec![], 500),
        Err(ChunkNetErr::NoProviders)
    ));
    assert_eq!(state.updated_at, 100);
}

#[test]
fn providers_are_refreshed_once() {
    let mut state = download(1);
    state.add_provider_at("a".into(), 100);
    let found = vec!["b".to_string(), "a".to_string(), "b".to_string(), "c".to_string()];
    assert_eq!(refresh_providers_at(&mut state, found.clone(), 500).unwrap(), 2);
    assert_eq!(state.providers, vec!["a".to_string(), "b".to_string(), "c".to_string()]);
    assert_eq!(state.updated_at, 500);
    assert_eq!(refresh_providers(&mut state, found).unwrap(), 0);
    assert_eq!(state.updated_at, 500);
}

#[test]
fn a_recovery_runs_once_at_a_time() {
    let mut svc = RecoverySvc::new();
    let state = download(1);
    assert!(!svc.is_active("root"));
    assert_eq!(svc.start_recovery(&state, &None).unwrap(), Start::Started);
    assert!(svc.is_active("root"));
    assert!(!svc.is_active("other"));
    assert_eq!(svc.start_recovery(&state, &None).unwrap(), Start::AlreadyActive);
    svc.complete_recovery("other");
    assert!(svc.is_active("root"));
    svc.complete_recovery("root");
    assert!(!svc.is_active("root"));
    assert_eq!(svc.start_recovery(&state, &None).unwrap(), Start::Started);
}

#[test]
fn a_right_root_is_started() {
    let mut svc = RecoverySvc::new();
    let mut state = download(1);
    state.merkle_root = ROOT_OF_3.into();
    state.manifest_json = Some("{}".into());
    let parsed = Some(manifest(&hashes(3)));
    assert_eq!(svc.start_recovery(&state, &parsed).unwrap(), Start::Started);
    assert!(svc.is_active(ROOT_OF_3));
}

#[test]
fn a_wrong_root_is_refused() {
    let mut svc = RecoverySvc::new();
    let mut state = download(1);
    let parsed = Some(manifest(&hashes(3)));
    state.manifest_json = Some("{}".into());
    assert!(matches!(
        svc.start_recovery(&state, &parsed),
        Err(ChunkNetErr::MerkleInvalid)
    ));
    assert!(!svc.is_active("root"));
}

#[test]
fn a_manifest_with_a_bad_hash_stays_active() {
    let mut svc = RecoverySvc::new();
    let mut state = download(1);
    state.manifest_json = Some("{}".into());
    let parsed = Some(manifest(&["abc".to_string()]));
    assert!(matches!(svc.start_recovery(&state, &parsed), Err(ChunkNetErr::ParseErr(_))));
    assert!(svc.is_active("root"));
}

#[test]
fn a_manifest_without_chunks_is_missing() {
    let mut svc = RecoverySvc::new();
    let mut state = download(1);
    state.manifest_json = Some("{}".into());
    assert!(matches!(
        svc.start_recovery(&state, &Some(manifest(&[]))),
        Err(ChunkNetErr::ManifestMissing)
    ));
}

#[test]
fn a_recovery_lists_providers_and_checks_chunks() {
    let mut state = download(2 * CHUNK_SIZE);
    state.mark_downloaded(0);
    state.mark_downloaded(1);
    let verdicts = [Ok(true), Ok(false)];
    let res = resume_recovery_at(&mut state, vec!["p".into()], &verdicts, 500).unwrap();
    assert_eq!(res, VerifyResult { verified: 1, failed: 1 });
    assert_eq!(state.providers, vec!["p".to_string()]);
    assert_eq!(states(&state), vec![ChunkState::Verified, ChunkState::Failed]);
    assert_eq!(state.verified_bytes, CHUNK_SIZE);
}

#[test]
fn a_recovery_goes_on_without_providers() {
    let mut state = download(CHUNK_SIZE);
    state.mark_downloaded(0);
    let res = resume_recovery(&mut state, vec![], &[Ok(true)]).unwrap();
    assert_eq!(res, VerifyResult { verified: 1, failed: 0 });
    assert!(state.providers.is_empty());
    assert!(state.is_complete());
}

#[test]
fn a_published_file_without_a_manifest_is_laid_out() {
    let state =
        from_file_metadata_at(&metadata(), &None, "t".into(), "d".into(), 500).unwrap();
    assert_eq!(state.merkle_root, ROOT_OF_2);
    assert_eq!(state.chunks.len(), 2);
    assert!(state.encrypted);
    assert_eq!(state.manifest_json, None);
    assert_eq!(state.providers, vec!["p1".to_string(), "p2".to_string()]);
    assert_eq!((state.tmp_path.as_str(), state.dst_path.as_str()), ("t", "d"));
    assert_eq!(state.updated_at, 500);
}

#[test]
fn a_published_manifest_gives_the_chunks() {
    let mut meta = metadata();
    meta.manifest = Some("{}".into());
    let parsed = Some(manifest(&hashes(2)));
    let state = from_file_metadata(&meta, &parsed, "t".into(), "d".into()).unwrap();
    let listed: Vec<String> = state.chunks.iter().map(|c| c.hash.clone()).collect();
    assert_eq!(listed, hashes(2));
    assert_eq!(state.manifest_json.as_deref(), Some("{}"));
    let mut svc = RecoverySvc::new();
    assert_eq!(svc.start_recovery(&state, &parsed).unwrap(), Start::Started);
}

#[test]
fn a_published_manifest_that_cannot_be_read_is_left_out() {
    let mut meta = metadata();
    meta.manifest = Some("not json".into());
    let state = from_file_metadata(&meta, &None, "t".into(), "d".into()).unwrap();
    assert_eq!(state.chunks.len(), 2);
    assert_eq!(state.manifest_json, None);
}
