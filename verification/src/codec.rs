use vstd::prelude::*;

use crate::errors::FetchError;

verus! {

/// How the fetched body must be transformed before archive parsing.
#[derive(Clone, Copy, Debug, PartialEq, Eq, Structural)]
pub enum Codec {
    /// Wrap the body in a gzip-decompressing transform.
    Gzip,
    /// Pass the body through unchanged.
    Identity,
}

/// The content types declaring a gzip-compressed archive (case-sensitive exact match).
pub open spec fn is_gzip_content_type(s: Seq<char>) -> bool {
    ||| s == "application/x-gzip"@
    ||| s == "application/gzip"@
    ||| s == "application/x-gtar"@
    ||| s == "application/x-tgz"@
}

/// The content types declaring an uncompressed archive; an absent declaration
/// (the empty string) counts as uncompressed.
pub open spec fn is_plain_content_type(s: Seq<char>) -> bool {
    ||| s == "application/tar"@
    ||| s == "application/x-tar"@
    ||| s.len() == 0
}

/// Chooses the transform for a declared content type, by exact match against the
/// recognized set; any other declaration is a fatal `UnsupportedFormat` naming the
/// offending content type. The declaration is trusted: there is no magic-byte
/// sniffing.
pub fn select_codec(content_type: &str) -> (r: Result<Codec, FetchError>)
    ensures
        is_gzip_content_type(content_type@) ==> r == Ok::<Codec, FetchError>(Codec::Gzip),
        is_plain_content_type(content_type@) ==> r == Ok::<Codec, FetchError>(Codec::Identity),
        !is_gzip_content_type(content_type@) && !is_plain_content_type(content_type@) ==> (
        r matches Err(e) && e matches FetchError::UnsupportedFormat(s) && s@ == content_type@),
{
    proof {
        reveal_strlit("application/x-gzip");
        reveal_strlit("application/gzip");
        reveal_strlit("application/x-gtar");
        reveal_strlit("application/x-tgz");
        reveal_strlit("application/tar");
        reveal_strlit("application/x-tar");
        // The recognized gzip and plain declarations are pairwise distinct; point
        // the solver at a differing index where lengths alone do not settle it.
        assert(("application/x-tgz"@)[15] != ("application/x-tar"@)[15]);
        assert(("application/x-gzip"@)[12] != ("application/tar"@)[12]);
        assert(("application/gzip"@)[12] != ("application/tar"@)[12]);
    }
    let ct = content_type.to_owned();
    if ct == "application/x-gzip".to_owned() || ct == "application/gzip".to_owned() || ct
        == "application/x-gtar".to_owned() || ct == "application/x-tgz".to_owned() {
        Ok(Codec::Gzip)
    } else if ct == "application/tar".to_owned() || ct == "application/x-tar".to_owned()
        || content_type.is_empty() {
        Ok(Codec::Identity)
    } else {
        Err(FetchError::UnsupportedFormat(ct))
    }
}

/// What the gzip decoder yields for a given complete input stream: a function of
/// the input bytes alone.
pub uninterp spec fn gunzip_of(compressed: Seq<u8>) -> Seq<u8>;

/// Whether the gzip decoder accepts a given complete input stream: decoding an
/// in-memory slice succeeds or fails as a function of the input bytes alone.
pub uninterp spec fn gunzip_ok_of(compressed: Seq<u8>) -> bool;

/// Relies on `flate2::read::GzDecoder` (driven by `std::io::Read::read_to_end`):
/// decoding a complete in-memory gzip stream yields bytes that depend on the input
/// bytes alone, and whether it succeeds depends on the input bytes alone; an
/// invalid stream reports an error instead.
#[verifier::external_body]
fn gunzip(compressed: &Vec<u8>) -> (r: Result<Vec<u8>, String>)
    ensures
        r is Ok == gunzip_ok_of(compressed@),
        r matches Ok(v) ==> v@ == gunzip_of(compressed@),
{
    let mut decoder = flate2::read::GzDecoder::new(compressed.as_slice());
    let mut decoded: Vec<u8> = Vec::new();
    match std::io::Read::read_to_end(&mut decoder, &mut decoded) {
        Ok(_) => Ok(decoded),
        Err(e) => Err(format!("invalid gzip stream: {}", e)),
    }
}

/// Applies the selected codec to a fetched body: a gzip-declared body is
/// decompressed, a plain-declared (or undeclared) body passes through unchanged,
/// and any other declaration is a fatal `UnsupportedFormat`. A body whose gzip
/// stream cannot be decoded is a fatal `ExtractionFailed`.
pub fn decode_body(content_type: &str, body: Vec<u8>) -> (r: Result<Vec<u8>, FetchError>)
    ensures
        is_gzip_content_type(content_type@) ==> (r is Ok == gunzip_ok_of(body@) && (
        r matches Ok(v) ==> v@ == gunzip_of(body@)) && (r matches Err(e)
            ==> e is ExtractionFailed)),
        is_plain_content_type(content_type@) ==> (r matches Ok(v) && v@ == body@),
        !is_gzip_content_type(content_type@) && !is_plain_content_type(content_type@) ==> (
        r matches Err(e) && e matches FetchError::UnsupportedFormat(s) && s@ == content_type@),
{
    match select_codec(content_type) {
        Err(e) => Err(e),
        Ok(Codec::Gzip) => match gunzip(&body) {
            Ok(decoded) => Ok(decoded),
            Err(m) => Err(FetchError::ExtractionFailed(m)),
        },
        Ok(Codec::Identity) => Ok(body),
    }
}

} // verus!
