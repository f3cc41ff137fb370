use parquet_to_jsonl::codec::{codec_for_path, decode_for_path, encode_for_path, Codec};
use std::io::Read;

#[test]
fn codec_selection() {
    assert_eq!(codec_for_path(&b"x.jsonl.gz".to_vec()), Codec::Gzip);
    assert_eq!(codec_for_path(&b"x.jsonl.zst".to_vec()), Codec::Zstd);
    assert_eq!(codec_for_path(&b"x.jsonl.zstd".to_vec()), Codec::Zstd);
    assert_eq!(codec_for_path(&b"x.jsonl".to_vec()), Codec::Plain);
    assert_eq!(codec_for_path(&b"noext".to_vec()), Codec::Plain);
}

#[test]
fn plain_passthrough() {
    // An uncompressed suffix returns the bytes unchanged.
    let data = b"line one\nline two".to_vec();
    let out = encode_for_path(&data, &b"/tmp/x.jsonl".to_vec());
    assert_eq!(out, data);
}

#[test]
fn gzip_round_trip() {
    let data = b"{\"text\":\"a\"}\n{\"text\":\"b\"}".to_vec();
    let path = b"/tmp/x.jsonl.gz".to_vec();
    let enc = encode_for_path(&data, &path);
    assert_ne!(enc, data);
    let dec = decode_for_path(&enc, &path).unwrap();
    assert_eq!(dec, data);
}

#[test]
fn gzip_matches_flate2_reader() {
    // The encoded bytes decode with the gzip reader directly.
    let data = b"payload with some text".to_vec();
    let enc = encode_for_path(&data, &b"a.gz".to_vec());
    let mut out = Vec::new();
    flate2::read::MultiGzDecoder::new(enc.as_slice())
        .read_to_end(&mut out)
        .unwrap();
    assert_eq!(out, data);
}

#[test]
fn zstd_round_trip() {
    let data = b"zstandard bound bytes".to_vec();
    let path = b"shard.jsonl.zstd".to_vec();
    let enc = encode_for_path(&data, &path);
    assert_ne!(enc, data);
    let dec = decode_for_path(&enc, &path).unwrap();
    assert_eq!(dec, data);
    let direct = zstd::stream::decode_all(enc.as_slice()).unwrap();
    assert_eq!(direct, data);
}

#[test]
fn decode_rejects_garbage() {
    let garbage = b"not a gzip stream".to_vec();
    assert!(decode_for_path(&garbage, &b"x.gz".to_vec()).is_none());
    assert!(decode_for_path(&garbage, &b"x.zst".to_vec()).is_none());
}

#[test]
fn empty_payload_round_trip() {
    let data: Vec<u8> = Vec::new();
    let path = b"e.jsonl.gz".to_vec();
    let enc = encode_for_path(&data, &path);
    let dec = decode_for_path(&enc, &path).unwrap();
    assert_eq!(dec, data);
}
