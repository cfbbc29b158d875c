use std::io::Write;

use llm_gateway::decode::decompress_request_body;

fn gzip(data: &[u8]) -> Vec<u8> {
    let mut e = flate2::write::GzEncoder::new(Vec::new(), flate2::Compression::default());
    e.write_all(data).unwrap();
    e.finish().unwrap()
}

fn zlib(data: &[u8]) -> Vec<u8> {
    let mut e = flate2::write::ZlibEncoder::new(Vec::new(), flate2::Compression::default());
    e.write_all(data).unwrap();
    e.finish().unwrap()
}

fn raw_deflate(data: &[u8]) -> Vec<u8> {
    let mut e = flate2::write::DeflateEncoder::new(Vec::new(), flate2::Compression::default());
    e.write_all(data).unwrap();
    e.finish().unwrap()
}

#[test]
fn identity_and_absent_pass_through() {
    assert_eq!(decompress_request_body(b"abc", None).unwrap(), b"abc");
    assert_eq!(decompress_request_body(b"abc", Some(" Identity ")).unwrap(), b"abc");
    assert_eq!(decompress_request_body(b"abc", Some("  ")).unwrap(), b"abc");
    assert_eq!(decompress_request_body(b"abc", Some(" , ,")).unwrap(), b"abc");
}

#[test]
fn single_codings_decoded() {
    let body = b"{\"model\":\"m\"}";
    assert_eq!(decompress_request_body(&gzip(body), Some("GZIP")).unwrap(), body);
    assert_eq!(decompress_request_body(&gzip(body), Some("x-gzip")).unwrap(), body);
    assert_eq!(decompress_request_body(&zlib(body), Some("deflate")).unwrap(), body);
    assert_eq!(decompress_request_body(&raw_deflate(body), Some("deflate")).unwrap(), body);
    let z = zstd::encode_all(&body[..], 3).unwrap();
    assert_eq!(decompress_request_body(&z, Some("zstd")).unwrap(), body);
    let mut br = Vec::new();
    {
        let mut w = brotli::CompressorWriter::new(&mut br, 4096, 5, 22);
        w.write_all(body).unwrap();
    }
    assert_eq!(decompress_request_body(&br, Some("br")).unwrap(), body);
}

#[test]
fn stacked_codings_undone_in_reverse() {
    let body = b"stacked";
    let twice = zlib(&gzip(body));
    assert_eq!(decompress_request_body(&twice, Some("gzip, deflate")).unwrap(), body);
}

#[test]
fn unsupported_and_broken_codings_fail() {
    assert_eq!(
        decompress_request_body(b"x", Some("compress")).unwrap_err(),
        "unsupported content-encoding: compress (supported: gzip, deflate, br, zstd)"
    );
    assert!(decompress_request_body(b"not gzip", Some("gzip")).unwrap_err().starts_with("gzip decode failed: "));
    assert_eq!(
        decompress_request_body(&gzip(b"a"), Some("gzip, identity")).unwrap_err(),
        "unsupported content-encoding: identity (supported: gzip, deflate, br, zstd)"
    );
}
