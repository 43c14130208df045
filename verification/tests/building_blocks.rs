use chiral_network::chunk::{ChunkState, CHUNK_SIZE};
use chiral_network::clock::{now_unix, unix_seconds};
use chiral_network::models::{manifest_hashes, ChunkInfo, FileManifest};
use chiral_network::net::proxy_server::listen_addr;
use chiral_network::text::{
    chars_of, clone_opt, clone_strings, contains_string, contains_text, decimal_text,
    ends_with_text, eq_ignoring_case, trim_end_text,
};

#[test]
fn chunk_size_is_256_kib() {
    assert_eq!(CHUNK_SIZE, 262144);
    assert_eq!(ChunkState::default(), ChunkState::Pending);
}

#[test]
fn decimal_has_no_leading_zeros() {
    assert_eq!(decimal_text(0), "0");
    assert_eq!(decimal_text(9), "9");
    assert_eq!(decimal_text(10), "10");
    assert_eq!(decimal_text(1205), "1205");
    assert_eq!(decimal_text(u32::MAX), "4294967295");
}

#[test]
fn listen_addr_names_the_port() {
    assert_eq!(listen_addr(0), "/ip4/0.0.0.0/tcp/0");
    assert_eq!(listen_addr(8080), "/ip4/0.0.0.0/tcp/8080");
    assert_eq!(listen_addr(u16::MAX), "/ip4/0.0.0.0/tcp/65535");
}

#[test]
fn a_clock_before_the_epoch_reads_zero() {
    assert_eq!(unix_seconds(None), 0);
    assert_eq!(unix_seconds(Some(1_700_000_000)), 1_700_000_000);
}

#[test]
fn the_clock_runs() {
    let first = now_unix();
    let second = now_unix();
    assert!(first > 1_600_000_000);
    assert!(second >= first && second - first < 60);
}

#[test]
fn characters_come_in_order() {
    assert_eq!(chars_of("aé€"), vec!['a', 'é', '€']);
    assert!(chars_of("").is_empty());
}

#[test]
fn parts_are_found_anywhere() {
    assert!(contains_text("a.chiral.b", ".chiral"));
    assert!(contains_text("abc", ""));
    assert!(contains_text("", ""));
    assert!(contains_text("aab", "ab"));
    assert!(!contains_text("abc", "abcd"));
    assert!(!contains_text("abc", "ac"));
}

#[test]
fn suffixes_are_found_at_the_end_only() {
    assert!(ends_with_text("x.json", ".json"));
    assert!(ends_with_text("x", ""));
    assert!(!ends_with_text("x.json.bak", ".json"));
    assert!(!ends_with_text("json", ".json"));
}

#[test]
fn a_suffix_is_taken_off_once() {
    assert_eq!(trim_end_text("a.x.x", ".x"), "a.x");
    assert_eq!(trim_end_text("a.x", ".x"), "a");
    assert_eq!(trim_end_text("a.x.y", ".x"), "a.x.y");
    assert_eq!(trim_end_text(".x", ".x"), "");
    assert_eq!(trim_end_text("é.x", ".x"), "é");
    assert_eq!(trim_end_text("abc", ""), "abc");
}

#[test]
fn letters_are_compared_in_either_case() {
    assert!(eq_ignoring_case("aBc09Z", "AbC09z"));
    assert!(!eq_ignoring_case("abc", "abd"));
    assert!(!eq_ignoring_case("abc", "ab"));
    assert!(!eq_ignoring_case("é", "É"));
    assert!(!eq_ignoring_case("[", "{"));
}

#[test]
fn lists_of_strings_are_searched_and_copied() {
    let list = vec!["a".to_string(), "b".to_string()];
    assert!(contains_string(&list, &"b".to_string()));
    assert!(!contains_string(&list, &"c".to_string()));
    assert_eq!(clone_strings(&list), list);
    assert_eq!(clone_opt(&Some("a".to_string())), Some("a".to_string()));
    assert_eq!(clone_opt(&None), None);
}

#[test]
fn a_manifest_lists_its_hashes_in_order() {
    let manifest = FileManifest {
        chunks: vec![
            ChunkInfo { index: 1, hash: "bb".into(), size: 5 },
            ChunkInfo { index: 0, hash: "aa".into(), size: 7 },
        ],
    };
    assert_eq!(manifest_hashes(&manifest), vec!["bb".to_string(), "aa".to_string()]);
    assert!(manifest_hashes(&FileManifest { chunks: vec![] }).is_empty());
}
