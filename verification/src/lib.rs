//! Converts columnar (parquet) tables into sharded, compressed
//! line-delimited text files, keeping only a configured subset of
//! string-typed fields.
//!
//! The pipeline is: discover input files, decode each file into
//! row-oriented records restricted to the requested field names, group the
//! records into fixed-size shards with globally unique ids, serialize each
//! shard as newline-joined JSON lines, and compress the result according to
//! the output path's extension. All data is modelled as bytes; the
//! surrounding binary does the file and console I/O.

pub mod bytes;
pub mod codec;
pub mod decode;
pub mod jsonl;
pub mod paths;
pub mod pipeline;
pub mod record;
pub mod shard;
