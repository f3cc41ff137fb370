//! The per-file unit of work and the discovery plan: decode a parquet
//! file into projected records, group them into shards with globally
//! unique ids, serialize each shard as JSON lines and compress it for
//! its gzip output path. The surrounding binary performs the directory
//! walks, the parallel fan-out and the reads and writes; everything it
//! hands in and takes back is plain bytes.

use vstd::prelude::*;
use crate::bytes::clone_bytes;
use crate::codec::{encode_for_path, gunzip_of, gzip_of, spec_codec_for, Codec};
use crate::decode::{
    decode_records, parquet_fields, parquet_rows, spec_decode_ok, spec_projected, DecodeError,
};
use crate::jsonl::{shard_payload, spec_shard_payload};
use crate::paths::{lemma_output_path_extension, output_path, spec_output_path};
use crate::record::recs_view;
use crate::shard::{chunk_end, num_chunks, reshard, Shard, ShardCounter};

verus! {

/// One output artifact: the compressed payload of one shard, and the
/// path it is to be persisted at.
#[derive(Debug)]
pub struct Artifact {
    pub path: Vec<u8>,
    pub data: Vec<u8>,
}

/// What discovery found at one input locator: a plain file, taken as is
/// with no extension check, or a directory with the files its recursive
/// parquet pattern matched, in match order.
#[derive(Debug)]
pub enum LocatorListing {
    File(Vec<u8>),
    Dir(Vec<Vec<u8>>),
}

/// The files one listing contributes.
pub open spec fn listing_files(l: LocatorListing) -> Seq<Seq<u8>> {
    match l {
        LocatorListing::File(p) => seq![p@],
        LocatorListing::Dir(v) => v.deep_view(),
    }
}

/// The flat discovered file list: each locator's files, in locator
/// order.
pub open spec fn spec_discovered(ls: Seq<LocatorListing>) -> Seq<Seq<u8>>
    decreases ls.len(),
{
    if ls.len() == 0 {
        Seq::empty()
    } else {
        spec_discovered(ls.drop_last()) + listing_files(ls.last())
    }
}

/// Flattens the listings into the concrete file list, preserving order:
/// a file locator stands verbatim, a directory contributes its matches.
pub fn discover_files(listings: &Vec<LocatorListing>) -> (r: Vec<Vec<u8>>)
    ensures
        r.deep_view() == spec_discovered(listings@),
{
    let mut out: Vec<Vec<u8>> = Vec::new();
    let mut i: usize = 0;
    while i < listings.len()
        invariant
            0 <= i <= listings@.len(),
            out.deep_view() == spec_discovered(listings@.subrange(0, i as int)),
        decreases listings@.len() - i,
    {
        let ghost pre = out.deep_view();
        match &listings[i] {
            LocatorListing::File(p) => {
                out.push(clone_bytes(p));
                proof {
                    assert(out.deep_view() =~~= pre + listing_files(listings@[i as int]));
                }
            },
            LocatorListing::Dir(v) => {
                let mut j: usize = 0;
                while j < v.len()
                    invariant
                        0 <= j <= v@.len(),
                        out.deep_view() == pre + v.deep_view().subrange(0, j as int),
                    decreases v@.len() - j,
                {
                    let ghost prev = out.deep_view();
                    out.push(clone_bytes(&v[j]));
                    proof {
                        assert(out.deep_view() =~~= prev.push(v@[j as int].deep_view()));
                        assert(prev.push(v@[j as int].deep_view()) =~~= pre + v.deep_view()
                            .subrange(0, j + 1));
                    }
                    j = j + 1;
                }
                proof {
                    assert(v.deep_view().subrange(0, v@.len() as int) =~~= v.deep_view());
                    assert(out.deep_view() =~~= pre + listing_files(listings@[i as int]));
                }
            },
        }
        proof {
            let sub = listings@.subrange(0, i + 1);
            assert(sub.drop_last() =~= listings@.subrange(0, i as int));
            assert(sub.last() == listings@[i as int]);
        }
        i = i + 1;
    }
    proof {
        assert(listings@.subrange(0, listings@.len() as int) =~= listings@);
    }
    out
}

/// The two requested field names, in request order.
pub open spec fn spec_projection(text_key: Seq<u8>, id_key: Seq<u8>) -> Seq<Seq<u8>> {
    seq![text_key, id_key]
}

/// The payload of chunk `i` when the rows `recs` are grouped `m` at a
/// time.
pub open spec fn spec_chunk_payload(
    recs: Seq<Seq<(Seq<u8>, Seq<u8>)>>,
    m: int,
    i: int,
) -> Seq<u8> {
    spec_shard_payload(recs.subrange(i * m, chunk_end(recs.len() as int, m, i)))
}

/// Builds the output artifact of one shard: its records as
/// newline-joined JSON lines, compressed for the shard's gzip output
/// path. Decoding the artifact's bytes yields the payload back.
pub fn shard_artifact(shard: &Shard, output_dir: &Vec<u8>, prefix: &Vec<u8>) -> (r: Artifact)
    ensures
        r.path@ == spec_output_path(output_dir@, prefix@, shard.id as nat),
        r.data@ == gzip_of(spec_shard_payload(recs_view(shard.records@))),
        gunzip_of(r.data@) == Some(spec_shard_payload(recs_view(shard.records@))),
{
    let path = output_path(output_dir, prefix, shard.id);
    let payload = shard_payload(&shard.records);
    proof {
        lemma_output_path_extension(output_dir@, prefix@, shard.id as nat);
        assert(spec_codec_for(path@) == Codec::Gzip);
    }
    let data = encode_for_path(&payload, &path);
    Artifact { path, data }
}

/// Why one file's unit of work failed.
#[derive(Clone, Copy, PartialEq, Eq, Structural, Debug)]
pub enum ProcessError {
    /// The file did not decode; scoped to this one file.
    Decode(DecodeError),
    /// The shard-id counter cannot cover this file's shards without
    /// wrapping.
    IdSpace,
}

/// The whole unit of work for one input file: decode `data` projected
/// to the text and id fields, group the rows `max_docs` at a time,
/// allocate each group the next id from `counter`, and return one
/// artifact per group — its JSON-lines payload gzip-compressed, at the
/// path `<output_dir>/<prefix><id, zero-padded to 8 digits>.jsonl.gz`.
/// Succeeds exactly when the file decodes and the id space suffices; a
/// failure leaves the counter untouched. Zero rows (or `max_docs` of
/// zero) yield zero artifacts.
pub fn process_file(
    data: &Vec<u8>,
    text_key: &Vec<u8>,
    id_key: &Vec<u8>,
    max_docs: usize,
    output_dir: &Vec<u8>,
    prefix: &Vec<u8>,
    counter: &mut ShardCounter,
) -> (r: Result<Vec<Artifact>, ProcessError>)
    ensures
        r is Ok <==> spec_decode_ok(data@, spec_projection(text_key@, id_key@)) && old(
            counter,
        ).next_id + num_chunks(parquet_rows(data@)->0, max_docs as nat) <= usize::MAX,
        r matches Ok(arts) ==> {
            let proj = spec_projected(data@, spec_projection(text_key@, id_key@));
            &&& arts@.len() == num_chunks(parquet_rows(data@)->0, max_docs as nat)
            &&& final(counter).next_id == old(counter).next_id + arts@.len()
            &&& forall|i: int|
                0 <= i < arts@.len() ==> (#[trigger] arts@[i]).path@ == spec_output_path(
                    output_dir@,
                    prefix@,
                    (old(counter).next_id + i) as nat,
                )
            &&& forall|i: int|
                0 <= i < arts@.len() ==> (#[trigger] arts@[i]).data@ == gzip_of(
                    spec_chunk_payload(proj, max_docs as int, i),
                )
            &&& forall|i: int|
                0 <= i < arts@.len() ==> gunzip_of((#[trigger] arts@[i]).data@) == Some(
                    spec_chunk_payload(proj, max_docs as int, i),
                )
            &&& parquet_rows(data@)->0 == 0 ==> arts@.len() == 0
        },
        r matches Err(e) ==> *final(counter) == *old(counter) && (match e {
            ProcessError::Decode(de) => !spec_decode_ok(
                data@,
                spec_projection(text_key@, id_key@),
            ) && (de == DecodeError::Metadata <==> parquet_fields(data@) is None),
            ProcessError::IdSpace => spec_decode_ok(data@, spec_projection(text_key@, id_key@))
                && old(counter).next_id + num_chunks(parquet_rows(data@)->0, max_docs as nat)
                > usize::MAX,
        }),
{
    let ghost pv = spec_projection(text_key@, id_key@);
    let mut req: Vec<Vec<u8>> = Vec::new();
    req.push(clone_bytes(text_key));
    req.push(clone_bytes(id_key));
    proof {
        assert(req.deep_view() =~~= pv);
    }
    let recs = match decode_records(data, &req) {
        Ok(r) => r,
        Err(e) => {
            return Err(ProcessError::Decode(e));
        },
    };
    let ghost proj = spec_projected(data@, pv);
    proof {
        assert(recs_view(recs@) == proj);
        assert(recs@.len() == recs_view(recs@).len());
        assert(proj.len() == parquet_rows(data@)->0);
    }
    let nchunks: usize = if max_docs == 0 || recs.len() == 0 {
        proof {
            crate::shard::lemma_num_chunks_zero(max_docs as nat);
        }
        0
    } else {
        let n = (recs.len() - 1) / max_docs + 1;
        proof {
            assert(n == num_chunks(recs@.len() as nat, max_docs as nat)) by (nonlinear_arith)
                requires
                    max_docs >= 1,
                    recs@.len() >= 1,
                    n == (recs@.len() - 1) / (max_docs as int) + 1,
                    num_chunks(recs@.len() as nat, max_docs as nat) == ((recs@.len() + max_docs
                        - 1) / (max_docs as int)),
            ;
        }
        n
    };
    if counter.next_id > usize::MAX - nchunks {
        return Err(ProcessError::IdSpace);
    }
    let ghost start = counter.next_id;
    let shards = reshard(&recs, max_docs, counter);
    let mut arts: Vec<Artifact> = Vec::new();
    let mut i: usize = 0;
    while i < shards.len()
        invariant
            0 <= i <= shards@.len(),
            proj == recs_view(recs@),
            shards@.len() == num_chunks(recs@.len() as nat, max_docs as nat),
            forall|t: int|
                0 <= t < shards@.len() ==> (#[trigger] shards@[t]).id == start + t,
            forall|t: int|
                0 <= t < shards@.len() ==> recs_view(#[trigger] shards@[t].records@) == recs_view(
                    recs@,
                ).subrange(t * max_docs, chunk_end(recs@.len() as int, max_docs as int, t)),
            arts@.len() == i,
            forall|t: int|
                0 <= t < i ==> (#[trigger] arts@[t]).path@ == spec_output_path(
                    output_dir@,
                    prefix@,
                    (start + t) as nat,
                ),
            forall|t: int|
                0 <= t < i ==> (#[trigger] arts@[t]).data@ == gzip_of(
                    spec_chunk_payload(proj, max_docs as int, t),
                ),
            forall|t: int|
                0 <= t < i ==> gunzip_of((#[trigger] arts@[t]).data@) == Some(
                    spec_chunk_payload(proj, max_docs as int, t),
                ),
        decreases shards@.len() - i,
    {
        let art = shard_artifact(&shards[i], output_dir, prefix);
        proof {
            assert(recs_view(shards@[i as int].records@) == proj.subrange(
                i as int * max_docs,
                chunk_end(proj.len() as int, max_docs as int, i as int),
            ));
        }
        arts.push(art);
        i = i + 1;
    }
    Ok(arts)
}

} // verus!
