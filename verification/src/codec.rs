//! Extension-driven compression: a path whose extension is `gz` gets
//! gzip, `zst` or `zstd` gets zstandard, anything else (or no extension)
//! passes bytes through unchanged. The choice is made from the path
//! string alone, and encoding is the exact inverse of the decoding rule
//! used when reading files with the same extensions.

use vstd::prelude::*;
use crate::bytes::clone_bytes;
use crate::paths::{extension_of, gz_bytes, spec_extension};

verus! {

/// The compression scheme chosen from a path's extension.
#[derive(Clone, Copy, PartialEq, Eq, Structural, Debug)]
pub enum Codec {
    Plain,
    Gzip,
    Zstd,
}

/// The bytes of "zst".
pub open spec fn zst_bytes() -> Seq<u8> {
    seq![122u8, 115u8, 116u8]
}

/// The bytes of "zstd".
pub open spec fn zstd_bytes() -> Seq<u8> {
    seq![122u8, 115u8, 116u8, 100u8]
}

/// The codec a path selects: `gz` means gzip, `zst` or `zstd` means
/// zstandard, and any other extension, or none, means no compression.
pub open spec fn spec_codec_for(p: Seq<u8>) -> Codec {
    match spec_extension(p) {
        Some(e) => if e == gz_bytes() {
            Codec::Gzip
        } else if e == zst_bytes() || e == zstd_bytes() {
            Codec::Zstd
        } else {
            Codec::Plain
        },
        None => Codec::Plain,
    }
}

/// Reads the codec off the path's extension.
pub fn codec_for_path(path: &Vec<u8>) -> (r: Codec)
    ensures
        r == spec_codec_for(path@),
{
    match extension_of(path) {
        Some(e) => {
            if e.len() == 2 && e[0] == 103 && e[1] == 122 {
                proof {
                    assert(e@ =~= gz_bytes());
                }
                Codec::Gzip
            } else if e.len() == 3 && e[0] == 122 && e[1] == 115 && e[2] == 116 {
                proof {
                    assert(e@ =~= zst_bytes());
                }
                Codec::Zstd
            } else if e.len() == 4 && e[0] == 122 && e[1] == 115 && e[2] == 116 && e[3] == 100 {
                proof {
                    assert(e@ =~= zstd_bytes());
                }
                Codec::Zstd
            } else {
                proof {
                    assert(e@ != gz_bytes());
                    assert(e@ != zst_bytes());
                    assert(e@ != zstd_bytes());
                }
                Codec::Plain
            }
        },
        None => Codec::Plain,
    }
}

pub uninterp spec fn gzip_of(data: Seq<u8>) -> Seq<u8>;

pub uninterp spec fn gunzip_of(data: Seq<u8>) -> Option<Seq<u8>>;

pub uninterp spec fn zstd_of(data: Seq<u8>) -> Seq<u8>;

pub uninterp spec fn unzstd_of(data: Seq<u8>) -> Option<Seq<u8>>;

/// Relies on flate2's `write::GzEncoder` at the default compression
/// level: its output is a function of the input bytes alone (the header
/// it writes carries no time stamp), named `gzip_of`; and on flate2's
/// `read::MultiGzDecoder` being its inverse, so decoding the returned
/// bytes yields `data` again. Writing into a `Vec` cannot fail.
#[verifier::external_body]
fn gzip_compress(data: &Vec<u8>) -> (r: Vec<u8>)
    ensures
        r@ == gzip_of(data@),
        gunzip_of(r@) == Some(data@),
{
    let mut enc = flate2::write::GzEncoder::new(Vec::new(), flate2::Compression::default());
    std::io::Write::write_all(&mut enc, data.as_slice()).unwrap();
    enc.finish().unwrap()
}

/// Relies on flate2's `read::MultiGzDecoder`: the decoded bytes (or the
/// failure to decode) are a function of the input bytes alone, named
/// `gunzip_of`; a stream that is not valid gzip yields an error.
#[verifier::external_body]
fn gzip_decompress(data: &Vec<u8>) -> (r: Option<Vec<u8>>)
    ensures
        match r {
            Some(v) => gunzip_of(data@) == Some(v@),
            None => gunzip_of(data@) is None,
        },
{
    let mut dec = flate2::read::MultiGzDecoder::new(data.as_slice());
    let mut out = Vec::new();
    match std::io::Read::read_to_end(&mut dec, &mut out) {
        Ok(_) => Some(out),
        Err(_) => None,
    }
}

/// Relies on zstd's `stream::encode_all` at the default level (0 selects
/// it): its output is a function of the input bytes alone, named
/// `zstd_of`; and on `stream::decode_all` being its inverse, so decoding
/// the returned bytes yields `data` again. Writing into a `Vec` cannot
/// fail.
#[verifier::external_body]
fn zstd_compress(data: &Vec<u8>) -> (r: Vec<u8>)
    ensures
        r@ == zstd_of(data@),
        unzstd_of(r@) == Some(data@),
{
    zstd::stream::encode_all(data.as_slice(), 0).unwrap()
}

/// Relies on zstd's `stream::decode_all`: the decoded bytes (or the
/// failure to decode) are a function of the input bytes alone, named
/// `unzstd_of`; a stream that is not valid zstandard yields an error.
#[verifier::external_body]
fn zstd_decompress(data: &Vec<u8>) -> (r: Option<Vec<u8>>)
    ensures
        match r {
            Some(v) => unzstd_of(data@) == Some(v@),
            None => unzstd_of(data@) is None,
        },
{
    match zstd::stream::decode_all(data.as_slice()) {
        Ok(v) => Some(v),
        Err(_) => None,
    }
}

/// What encoding `data` under codec `c` yields.
pub open spec fn spec_encoded(data: Seq<u8>, c: Codec) -> Seq<u8> {
    match c {
        Codec::Plain => data,
        Codec::Gzip => gzip_of(data),
        Codec::Zstd => zstd_of(data),
    }
}

/// What decoding `data` under codec `c` yields, if it decodes at all.
pub open spec fn spec_decoded(data: Seq<u8>, c: Codec) -> Option<Seq<u8>> {
    match c {
        Codec::Plain => Some(data),
        Codec::Gzip => gunzip_of(data),
        Codec::Zstd => unzstd_of(data),
    }
}

/// Encodes `data` as the extension of `path` directs. The second clause
/// is the round-trip law: decoding the result under the same path's rule
/// gives `data` back exactly; in particular a path without a compressing
/// extension returns the bytes unchanged.
pub fn encode_for_path(data: &Vec<u8>, path: &Vec<u8>) -> (r: Vec<u8>)
    ensures
        r@ == spec_encoded(data@, spec_codec_for(path@)),
        spec_decoded(r@, spec_codec_for(path@)) == Some(data@),
{
    match codec_for_path(path) {
        Codec::Plain => clone_bytes(data),
        Codec::Gzip => gzip_compress(data),
        Codec::Zstd => zstd_compress(data),
    }
}

/// Decodes `data` as the extension of `path` directs: the reading-side
/// inverse of `encode_for_path`. `None` exactly when the bytes do not
/// decode under the selected codec.
pub fn decode_for_path(data: &Vec<u8>, path: &Vec<u8>) -> (r: Option<Vec<u8>>)
    ensures
        match r {
            Some(v) => spec_decoded(data@, spec_codec_for(path@)) == Some(v@),
            None => spec_decoded(data@, spec_codec_for(path@)) is None,
        },
{
    match codec_for_path(path) {
        Codec::Plain => Some(clone_bytes(data)),
        Codec::Gzip => gzip_decompress(data),
        Codec::Zstd => zstd_decompress(data),
    }
}

} // verus!
