use nixek_fetcher::codec::{decode_body, select_codec, Codec};
use nixek_fetcher::errors::FetchError;

fn gzip_bytes(data: &[u8]) -> Vec<u8> {
    let mut encoder = flate2::write::GzEncoder::new(Vec::new(), flate2::Compression::default());
    std::io::Write::write_all(&mut encoder, data).unwrap();
    encoder.finish().unwrap()
}

#[test]
fn gzip_declarations_select_the_gzip_codec() {
    assert_eq!(select_codec("application/x-gzip"), Ok(Codec::Gzip));
    assert_eq!(select_codec("application/gzip"), Ok(Codec::Gzip));
    assert_eq!(select_codec("application/x-gtar"), Ok(Codec::Gzip));
    assert_eq!(select_codec("application/x-tgz"), Ok(Codec::Gzip));
}

#[test]
fn plain_declarations_select_the_identity_codec() {
    assert_eq!(select_codec("application/tar"), Ok(Codec::Identity));
    assert_eq!(select_codec("application/x-tar"), Ok(Codec::Identity));
    assert_eq!(select_codec(""), Ok(Codec::Identity));
}

#[test]
fn unknown_declarations_are_fatal() {
    assert_eq!(
        select_codec("application/zip"),
        Err(FetchError::UnsupportedFormat("application/zip".to_string()))
    );
    // The match is case-sensitive and exact.
    assert_eq!(
        select_codec("Application/Gzip"),
        Err(FetchError::UnsupportedFormat("Application/Gzip".to_string()))
    );
    assert_eq!(
        select_codec("application/x-gzip "),
        Err(FetchError::UnsupportedFormat("application/x-gzip ".to_string()))
    );
}

#[test]
fn plain_bodies_pass_through_unchanged() {
    let body = b"exact bytes, untouched".to_vec();
    assert_eq!(decode_body("application/x-tar", body.clone()), Ok(body.clone()));
    assert_eq!(decode_body("", body.clone()), Ok(body));
}

#[test]
fn gzip_bodies_are_decompressed() {
    let payload = b"the decompressed payload".to_vec();
    let compressed = gzip_bytes(&payload);
    assert_ne!(compressed, payload);
    assert_eq!(decode_body("application/gzip", compressed), Ok(payload));
}

#[test]
fn an_invalid_gzip_stream_is_fatal() {
    let r = decode_body("application/x-gzip", b"this is not gzip".to_vec());
    assert!(matches!(r, Err(FetchError::ExtractionFailed(_))));
}

#[test]
fn an_unknown_declaration_never_touches_the_body() {
    let r = decode_body("text/html", b"whatever".to_vec());
    assert_eq!(r, Err(FetchError::UnsupportedFormat("text/html".to_string())));
}
