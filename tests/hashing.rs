use mcpacker::integrity::{is_not_whitespace, strip_whitespace, verify_file, VerifyError};
use mcpacker::murmur::{mix, murmurhash2_32, tail};
use mcpacker::artifact::Mod;

#[test]
fn empty_input_seed_zero_hashes_to_zero() {
    assert_eq!(murmurhash2_32(b"", 0), 0);
}

#[test]
fn reference_vectors() {
    assert_eq!(murmurhash2_32(b"", 1), 0x5bd15e36);
    assert_eq!(murmurhash2_32(b"a", 0), 0x92685f5e);
    assert_eq!(murmurhash2_32(b"ab", 0), 0x1aa14063);
    assert_eq!(murmurhash2_32(b"abc", 0), 0x13577c9b);
    assert_eq!(murmurhash2_32(b"abcd", 0), 0x26873021);
    assert_eq!(murmurhash2_32(b"hello", 0), 0xe56129cb);
    assert_eq!(murmurhash2_32(b"hello world", 0), 0x44a81419);
    assert_eq!(
        murmurhash2_32(b"The quick brown fox jumps over the lazy dog", 0),
        0x212729d0
    );
    assert_eq!(
        murmurhash2_32(b"The quick brown fox jumps over the lazy dog", 1),
        0x1e1049e7
    );
}

#[test]
fn mix_and_tail_steps() {
    assert_eq!(mix(0, 0), 0);
    assert_eq!(tail(7, b""), 7);
    assert_eq!(tail(0, b"\x01"), 0x5bd1e995);
    assert_ne!(tail(0, b"ab"), tail(0, b"ba"));
}

fn record(name: &str, size: u64, fingerprint: u32) -> Mod {
    Mod {
        project_id: 1,
        file_id: 10,
        file_name: name.to_string(),
        fingerprint,
        file_size: size,
    }
}

#[test]
fn whitespace_bytes_are_stripped() {
    assert!(!is_not_whitespace(&9));
    assert!(!is_not_whitespace(&10));
    assert!(!is_not_whitespace(&13));
    assert!(!is_not_whitespace(&32));
    assert!(is_not_whitespace(&b'x'));
    assert_eq!(strip_whitespace(b" a\tb\r\nc d "), b"abcd".to_vec());
    assert_eq!(strip_whitespace(b""), Vec::<u8>::new());
}

#[test]
fn verify_accepts_matching_content() {
    let content = b"hello world";
    let m = record("a.jar", 11, 0xa85cbded);
    assert!(verify_file(content, &m).is_ok());
}

#[test]
fn verify_reports_length_before_fingerprint() {
    let content = b"hello world";
    let m = record("a.jar", 12, 0);
    match verify_file(content, &m) {
        Err(VerifyError::Length { file_name, expected_len, actual_len }) => {
            assert_eq!(file_name, "a.jar");
            assert_eq!(expected_len, 12);
            assert_eq!(actual_len, 11);
        }
        _ => panic!("expected a length mismatch"),
    }
}

#[test]
fn verify_reports_flipped_byte() {
    let content = b"hellp world";
    let m = record("a.jar", 11, 0xa85cbded);
    match verify_file(content, &m) {
        Err(VerifyError::Fingerprint { file_name, expected_hash, actual_hash }) => {
            assert_eq!(file_name, "a.jar");
            assert_eq!(expected_hash, 0xa85cbded);
            assert_eq!(actual_hash, murmurhash2_32(b"hellpworld", 1));
            assert_ne!(actual_hash, expected_hash);
        }
        _ => panic!("expected a fingerprint mismatch"),
    }
}
