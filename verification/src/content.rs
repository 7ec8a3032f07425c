//! File content: decoding what the provider sends and cutting the byte
//! window that a read asks for.

use vstd::prelude::*;
use crate::error::{Failure, FailureView, FsError};
use crate::text::{owned, text_eq};

verus! {

/// The body of a file as the provider sends it: the encoded text and the
/// name of the encoding.
#[derive(Clone, Debug)]
pub struct GitHubFileContent {
    pub content: String,
    pub encoding: String,
}

/// What standard base64 decoding makes of a text: the decoded bytes, or
/// `None` where the text is not valid base64.
pub uninterp spec fn base64_decoded(text: Seq<char>) -> Option<Seq<u8>>;

#[verifier::external_type_specification]
#[verifier::external_body]
pub struct ExDecodeError(base64::DecodeError);

/// Calls `base64::decode`, the standard-alphabet decoder with canonical
/// padding. The contract only names its outcome: the call succeeds exactly
/// where `base64_decoded` is `Some`, and then returns those bytes. Nothing is
/// claimed about which texts decode or to what.
#[verifier::external_body]
#[allow(deprecated)]
fn base64_decode(text: &str) -> (outcome: Result<Vec<u8>, base64::DecodeError>)
    ensures
        match outcome {
            Ok(bytes) => base64_decoded(text@) == Some(bytes@),
            Err(_) => base64_decoded(text@).is_none(),
        },
{
    base64::decode(text)
}

/// Calls `to_string` on a `base64::DecodeError`: the words in which base64
/// describes why a text did not decode. Nothing is claimed of them.
#[verifier::external_body]
fn decode_error_text(error: &base64::DecodeError) -> (text: String) {
    error.to_string()
}

/// The bytes that a provider body stands for. Only base64 is recognised;
/// any other encoding is an error rather than a pass-through, and base64
/// text that does not decode is an error too.
pub open spec fn decoded(content: Seq<char>, encoding: Seq<char>) -> Result<Seq<u8>, FsError> {
    if encoding != "base64"@ {
        Err(FsError::UnsupportedEncoding)
    } else {
        match base64_decoded(content) {
            Some(bytes) => Ok(bytes),
            None => Err(FsError::DecodeError),
        }
    }
}

/// Whether a failure describes why a body in `encoding` was not decoded: an
/// unrecognised encoding is named, and a text that is not base64 is
/// described in the decoder's words.
pub open spec fn describes_decoding(failure: FailureView, encoding: Seq<char>) -> bool {
    match failure.kind {
        FsError::UnsupportedEncoding => failure.message == "Unknown content encoding: "@ + encoding,
        FsError::DecodeError => "Failed to decode base64 content: "@.is_prefix_of(failure.message),
        _ => false,
    }
}

/// Decodes a provider body into the file's bytes.
pub fn decode_content(body: &GitHubFileContent) -> (outcome: Result<Vec<u8>, Failure>)
    ensures
        match outcome {
            Ok(bytes) => decoded(body.content@, body.encoding@) == Ok::<Seq<u8>, FsError>(bytes@),
            Err(failure) => decoded(body.content@, body.encoding@) == Err::<Seq<u8>, FsError>(failure.kind)
                && describes_decoding(failure@, body.encoding@),
        },
{
    if !text_eq(body.encoding.as_str(), "base64") {
        let mut message = owned("Unknown content encoding: ");
        message.append(body.encoding.as_str());
        return Err(Failure { kind: FsError::UnsupportedEncoding, message: message });
    }
    match base64_decode(body.content.as_str()) {
        Ok(bytes) => Ok(bytes),
        Err(error) => {
            let detail = decode_error_text(&error);
            let mut message = owned("Failed to decode base64 content: ");
            message.append(detail.as_str());
            assert(message@.subrange(0, "Failed to decode base64 content: "@.len() as int)
                =~= "Failed to decode base64 content: "@);
            Err(Failure { kind: FsError::DecodeError, message: message })
        },
    }
}

/// The part of `content` that a read of `length` bytes at `offset` returns:
/// the bytes from `offset` up to `offset + length`, cut at the end of the
/// content. It is empty when `offset` is at or beyond the end.
pub open spec fn window(content: Seq<u8>, offset: int, length: int) -> Seq<u8>
    recommends
        0 <= offset,
        0 <= length,
{
    let start = if offset < content.len() { offset } else { content.len() as int };
    let end = if offset + length < content.len() { offset + length } else { content.len() as int };
    content.subrange(start, if end < start { start } else { end })
}

/// Cuts the window of a read out of a file's content.
pub fn slice_content(content: &Vec<u8>, offset: u64, length: u32) -> (bytes: Vec<u8>)
    ensures
        bytes@ == window(content@, offset as int, length as int),
        offset >= content@.len() ==> bytes@.len() == 0,
        offset <= content@.len() ==> bytes@ == content@.subrange(
            offset as int,
            if offset + length < content@.len() { offset + length } else { content@.len() as int },
        ),
{
    let total: usize = content.len();
    let start: usize = if offset < total as u64 { offset as usize } else { total };
    let room: usize = total - start;
    let end: usize = if (length as u64) < room as u64 { start + length as usize } else { total };
    let mut bytes: Vec<u8> = Vec::new();
    let mut i: usize = start;
    while i < end
        invariant
            start <= i <= end <= total,
            total == content@.len(),
            bytes@ == content@.subrange(start as int, i as int),
        decreases end - i,
    {
        bytes.push(content[i]);
        i = i + 1;
    }
    bytes
}

} // verus!
