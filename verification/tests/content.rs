use githubfs::content::{decode_content, slice_content, GitHubFileContent};
use githubfs::error::FsError;

fn body(content: &str, encoding: &str) -> GitHubFileContent {
    GitHubFileContent { content: String::from(content), encoding: String::from(encoding) }
}

#[test]
fn a_read_returns_the_window_it_asks_for() {
    let content: Vec<u8> = b"0123456789".to_vec();
    assert_eq!(slice_content(&content, 0, 4), b"0123".to_vec());
    assert_eq!(slice_content(&content, 3, 4), b"3456".to_vec());
    assert_eq!(slice_content(&content, 0, 10), content);
    assert_eq!(slice_content(&content, 0, 0), Vec::<u8>::new());
    assert_eq!(slice_content(&content, 5, 0), Vec::<u8>::new());
}

#[test]
fn a_read_is_cut_at_the_end_of_the_content() {
    let content: Vec<u8> = b"0123456789".to_vec();
    assert_eq!(slice_content(&content, 8, 4), b"89".to_vec());
    assert_eq!(slice_content(&content, 9, u32::MAX), b"9".to_vec());
    assert_eq!(slice_content(&content, 0, u32::MAX), content);
}

#[test]
fn a_read_at_or_past_the_end_is_empty() {
    let content: Vec<u8> = b"0123456789".to_vec();
    assert_eq!(slice_content(&content, 10, 1), Vec::<u8>::new());
    assert_eq!(slice_content(&content, 10, u32::MAX), Vec::<u8>::new());
    assert_eq!(slice_content(&content, 11, 4), Vec::<u8>::new());
    assert_eq!(slice_content(&content, u64::MAX, u32::MAX), Vec::<u8>::new());
    assert_eq!(slice_content(&Vec::new(), 0, 16), Vec::<u8>::new());
}

#[test]
fn base64_content_is_decoded() {
    assert_eq!(decode_content(&body("aGVsbG8=", "base64")), Ok(b"hello".to_vec()));
    assert_eq!(decode_content(&body("AAEC/w==", "base64")), Ok(vec![0u8, 1u8, 2u8, 255u8]));
    assert_eq!(decode_content(&body("", "base64")), Ok(Vec::new()));
}

#[test]
fn text_that_is_not_base64_is_a_decode_error() {
    assert_eq!(decode_content(&body("not base64!", "base64")).map_err(|failure| failure.kind), Err(FsError::DecodeError));
    assert_eq!(decode_content(&body("aGVsbG8", "base64")).map_err(|failure| failure.kind), Err(FsError::DecodeError));
    assert_eq!(decode_content(&body("aGVs\nbG8=", "base64")).map_err(|failure| failure.kind), Err(FsError::DecodeError));
}

#[test]
fn a_decoding_failure_says_what_went_wrong() {
    let unknown = decode_content(&body("aGVsbG8=", "utf-8")).unwrap_err();
    assert_eq!(unknown.kind, FsError::UnsupportedEncoding);
    assert_eq!(unknown.message, "Unknown content encoding: utf-8");
    let unnamed = decode_content(&body("aGVsbG8=", "")).unwrap_err();
    assert_eq!(unnamed.message, "Unknown content encoding: ");
    let invalid = decode_content(&body("not base64!", "base64")).unwrap_err();
    assert_eq!(invalid.kind, FsError::DecodeError);
    assert_eq!(invalid.message, "Failed to decode base64 content: Invalid byte 32, offset 3.");
}

#[test]
fn an_unrecognised_encoding_is_an_error_not_a_pass_through() {
    assert_eq!(decode_content(&body("aGVsbG8=", "utf-8")).map_err(|failure| failure.kind), Err(FsError::UnsupportedEncoding));
    assert_eq!(decode_content(&body("aGVsbG8=", "Base64")).map_err(|failure| failure.kind), Err(FsError::UnsupportedEncoding));
    assert_eq!(decode_content(&body("hello", "")).map_err(|failure| failure.kind), Err(FsError::UnsupportedEncoding));
    assert_eq!(decode_content(&body("not base64!", "none")).map_err(|failure| failure.kind), Err(FsError::UnsupportedEncoding));
}
