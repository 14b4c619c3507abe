use std::io::{Error, ErrorKind};
use std::path::PathBuf;

use emoji_builder::changes::{CheckError, FileHashes};
use emoji_builder::digest::{content_digest, strip_cr};
use emoji_builder::emoji::Emoji;

fn item(sequence: Vec<u32>, path: Option<&str>) -> Emoji {
    let mut emoji = Emoji::from(sequence);
    if let Some(path) = path {
        emoji.set_path(PathBuf::from(path));
    }
    emoji
}

fn missing() -> Result<Vec<u8>, Error> {
    Err(Error::new(ErrorKind::NotFound, "no such file"))
}

fn row(a: &str, b: &str) -> Vec<String> {
    vec![a.to_string(), b.to_string()]
}

#[test]
fn digest_is_sha256_of_text_without_cr() {
    let expected = hex::decode("ba7816bf8f01cfea414140de5dae2223b00361a396177a9cb410ff61f20015ad").unwrap();
    assert_eq!(content_digest(b"abc"), expected);
    assert_eq!(content_digest(b"a\rb\rc\r"), expected);
    assert_eq!(content_digest(b"abc").len(), 32);
}

#[test]
fn digest_same_for_lf_and_crlf_files() {
    let lf = b"<svg>\n  <path d=\"M0 0\"/>\n</svg>\n".to_vec();
    let crlf = b"<svg>\r\n  <path d=\"M0 0\"/>\r\n</svg>\r\n".to_vec();
    assert_eq!(content_digest(&lf), content_digest(&crlf));
    assert_ne!(content_digest(&lf), content_digest(b"<svg></svg>"));
}

#[test]
fn test_nocr() {
    let data = vec![0x41, 0xd, 0xa, 0x42];
    let stripped = strip_cr(&data);
    assert_eq!(stripped.len(), 3);
    assert_eq!(stripped, vec![0x41u8, 0xau8, 0x42u8]);

    let data = vec![0x41, 0xa, 0x42];
    let stripped = strip_cr(&data);
    assert_eq!(stripped.len(), 3);
    assert_eq!(stripped, vec![0x41, 0xa, 0x42]);
    assert_eq!(strip_cr(&[]), Vec::<u8>::new());
}

#[test]
fn new_cache_is_empty() {
    let hashes = FileHashes::new();
    assert!(hashes.is_empty());
    assert_eq!(hashes.len(), 0);
    assert!(!hashes.contains(&vec![0x1f600]));
}

#[test]
fn update_inserts_then_replaces() {
    let mut hashes = FileHashes::new();
    let emoji = item(vec![0x1f600], Some("a.svg"));
    assert_eq!(hashes.update(&emoji, &[1, 2, 3]), None);
    assert_eq!(hashes.len(), 1);
    assert_eq!(hashes.update(&emoji, &[4, 5]), Some(vec![1, 2, 3]));
    assert_eq!(hashes.len(), 1);
    assert_eq!(hashes.get(&vec![0x1f600]), Some(&vec![4, 5]));
    assert!(hashes.contains(&vec![0x1f600]));
}

#[test]
fn check_without_path_is_an_error() {
    let hashes = FileHashes::new();
    let emoji = item(vec![0x1f600], None);
    assert!(matches!(hashes.check(&emoji, Ok(b"x".to_vec())), Err(CheckError::NoFileSpecified)));
    assert!(matches!(FileHashes::hash(&emoji, Ok(b"x".to_vec())), Err(CheckError::NoFileSpecified)));
}

#[test]
fn check_without_entry_is_stale() {
    let hashes = FileHashes::new();
    let emoji = item(vec![0x1f600], Some("a.svg"));
    assert!(matches!(hashes.check(&emoji, Ok(b"x".to_vec())), Ok(false)));
}

#[test]
fn check_of_unreadable_file_is_an_error() {
    let hashes = FileHashes::new();
    let emoji = item(vec![0x1f600], Some("missing.svg"));
    assert!(matches!(hashes.check(&emoji, missing()), Err(CheckError::Io(_))));
}

#[test]
fn check_compares_full_digest() {
    let mut hashes = FileHashes::new();
    let emoji = item(vec![0x1f600], Some("a.svg"));
    let digest = FileHashes::hash(&emoji, Ok(b"line\n".to_vec())).unwrap();
    hashes.update(&emoji, &digest);
    assert!(matches!(hashes.check(&emoji, Ok(b"line\r\n".to_vec())), Ok(true)));
    assert!(matches!(hashes.check(&emoji, Ok(b"other\n".to_vec())), Ok(false)));
    assert!(matches!(hashes.check(&emoji, missing()), Err(CheckError::Io(_))));
    let mut truncated = digest.clone();
    truncated.pop();
    hashes.update(&emoji, &truncated);
    assert!(matches!(hashes.check(&emoji, Ok(b"line\n".to_vec())), Ok(false)));
}

#[test]
fn hash_reports_read_errors() {
    let emoji = item(vec![0x1f600], Some("a.svg"));
    assert!(matches!(FileHashes::hash(&emoji, missing()), Err(CheckError::Io(_))));
    assert_eq!(FileHashes::hash(&emoji, Ok(b"abc".to_vec())).unwrap(), content_digest(b"abc"));
}

#[test]
fn records_use_hex_text() {
    let mut hashes = FileHashes::new();
    let emoji = item(vec![0x1f3f3, 0xfe0f], Some("a.svg"));
    hashes.update(&emoji, &[0x00, 0xab, 0xff]);
    assert_eq!(hashes.to_records(), vec![row("1f3f3 fe0f", "00abff")]);
}

#[test]
fn loading_skips_malformed_rows() {
    let rows = vec![
        vec!["1f600".to_string()],
        row("1f601", "zz"),
        row("1f602", "abc"),
        row("1f603", "0A0b"),
        row("1f604", "01"),
        row("1f604", "02"),
    ];
    let hashes = FileHashes::from_records(rows);
    assert_eq!(hashes.len(), 2);
    assert_eq!(hashes.get(&vec![0x1f603]), Some(&vec![0x0a, 0x0b]));
    assert_eq!(hashes.get(&vec![0x1f604]), Some(&vec![0x02]));
    assert!(!hashes.contains(&vec![0x1f601]));
    assert!(!hashes.contains(&vec![0x1f602]));
}

#[test]
fn persist_then_load_keeps_entries() {
    let mut hashes = FileHashes::new();
    let a = item(vec![0x1f600], Some("a.svg"));
    let b = item(vec![0x1f469, 0x200d, 0x1f4bb], Some("b.svg"));
    let c = item(vec![0x23], Some("c.svg"));
    hashes.update(&a, &content_digest(b"a"));
    hashes.update(&b, &content_digest(b"b"));
    hashes.update(&c, &[0]);

    let mut writer = csv::Writer::from_writer(vec![]);
    for record in hashes.to_records() {
        writer.write_record(&record).unwrap();
    }
    let bytes = writer.into_inner().unwrap();
    let mut reader = csv::ReaderBuilder::new().has_headers(false).from_reader(bytes.as_slice());
    let rows: Vec<Vec<String>> = reader
        .records()
        .filter_map(Result::ok)
        .map(|record| record.iter().map(String::from).collect())
        .collect();
    let loaded = FileHashes::from_records(rows);

    assert_eq!(loaded.len(), 3);
    for sequence in [vec![0x1f600], vec![0x1f469, 0x200d, 0x1f4bb], vec![0x23]] {
        assert_eq!(loaded.get(&sequence), hashes.get(&sequence));
    }
    let direct = FileHashes::from_records(hashes.to_records());
    assert_eq!(direct.len(), 3);
}

#[test]
fn empty_cache_writes_no_rows() {
    let hashes = FileHashes::default();
    assert!(hashes.to_records().is_empty());
    assert!(FileHashes::from_records(vec![]).is_empty());
}

#[test]
fn extreme_codepoints_survive_a_round_trip() {
    let mut hashes = FileHashes::new();
    let sequences = vec![vec![0u32], vec![0xffffffff], vec![0x10, 0x0, 0xffffffff]];
    for sequence in &sequences {
        hashes.update(&item(sequence.clone(), None), &[0xde, 0xad]);
    }
    let loaded = FileHashes::from_records(hashes.to_records());
    assert_eq!(loaded.len(), 3);
    for sequence in &sequences {
        assert_eq!(loaded.get(sequence), Some(&vec![0xde, 0xad]));
    }
}
