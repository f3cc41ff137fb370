use arrow2::array::Utf8Array;
use arrow2::chunk::Chunk;
use arrow2::datatypes::{DataType, Field as ArrowField, Schema};
use arrow2::io::parquet::write::{
    CompressionOptions, Encoding, FileWriter, RowGroupIterator, Version, WriteOptions,
};
use parquet_to_jsonl::decode::{decode_records, DecodeError};
use parquet_to_jsonl::pipeline::{discover_files, process_file, LocatorListing, ProcessError};
use parquet_to_jsonl::shard::ShardCounter;
use std::io::Read;

fn write_options() -> WriteOptions {
    WriteOptions {
        write_statistics: false,
        version: Version::V2,
        compression: CompressionOptions::Uncompressed,
        data_pagesize_limit: None,
    }
}

/// A one-row-group parquet file of string columns, in memory.
fn parquet_utf8(cols: &[(&str, &[&str])]) -> Vec<u8> {
    let fields: Vec<ArrowField> = cols
        .iter()
        .map(|(n, _)| ArrowField::new(*n, DataType::Utf8, false))
        .collect();
    let schema = Schema::from(fields);
    let arrays: Vec<Box<dyn arrow2::array::Array>> = cols
        .iter()
        .map(|(_, v)| Utf8Array::<i32>::from_slice(v).boxed())
        .collect();
    let chunk = Chunk::new(arrays);
    let encodings: Vec<Vec<Encoding>> =
        schema.fields.iter().map(|_| vec![Encoding::Plain]).collect();
    let groups = RowGroupIterator::try_new(
        vec![Ok(chunk)].into_iter(),
        &schema,
        write_options(),
        encodings,
    )
    .unwrap();
    let mut buf = Vec::new();
    let mut writer = FileWriter::try_new(&mut buf, schema, write_options()).unwrap();
    for group in groups {
        writer.write(group.unwrap()).unwrap();
    }
    writer.end(None).unwrap();
    buf
}

/// A parquet file with a schema but no row groups: zero rows.
fn parquet_empty(names: &[&str]) -> Vec<u8> {
    let fields: Vec<ArrowField> = names
        .iter()
        .map(|n| ArrowField::new(*n, DataType::Utf8, false))
        .collect();
    let schema = Schema::from(fields);
    let mut buf = Vec::new();
    let mut writer = FileWriter::try_new(&mut buf, schema, write_options()).unwrap();
    writer.end(None).unwrap();
    buf
}

/// A parquet file whose single column is int64-typed.
fn parquet_int64(name: &str, values: &[i64]) -> Vec<u8> {
    let schema = Schema::from(vec![ArrowField::new(name, DataType::Int64, false)]);
    let array = arrow2::array::Int64Array::from_slice(values).boxed();
    let chunk = Chunk::new(vec![array]);
    let groups = RowGroupIterator::try_new(
        vec![Ok(chunk)].into_iter(),
        &schema,
        write_options(),
        vec![vec![Encoding::Plain]],
    )
    .unwrap();
    let mut buf = Vec::new();
    let mut writer = FileWriter::try_new(&mut buf, schema, write_options()).unwrap();
    for group in groups {
        writer.write(group.unwrap()).unwrap();
    }
    writer.end(None).unwrap();
    buf
}

fn req(names: &[&str]) -> Vec<Vec<u8>> {
    names.iter().map(|n| n.as_bytes().to_vec()).collect()
}

fn gunzip(data: &[u8]) -> Vec<u8> {
    let mut out = Vec::new();
    flate2::read::MultiGzDecoder::new(data).read_to_end(&mut out).unwrap();
    out
}

#[test]
fn projection_keeps_only_requested_fields() {
    // Schema {text, id, other}, projecting {text, id}: only those two
    // keys, in schema order, one record per row in row order.
    let data = parquet_utf8(&[
        ("text", &["a", "b"]),
        ("id", &["1", "2"]),
        ("other", &["x", "y"]),
    ]);
    let recs = decode_records(&data, &req(&["text", "id"])).unwrap();
    assert_eq!(recs.len(), 2);
    for (row, r) in recs.iter().enumerate() {
        assert_eq!(r.fields.len(), 2);
        assert_eq!(r.fields[0].name, b"text".to_vec());
        assert_eq!(r.fields[1].name, b"id".to_vec());
        assert_eq!(r.fields[0].value, [b"a".to_vec(), b"b".to_vec()][row]);
        assert_eq!(r.fields[1].value, [b"1".to_vec(), b"2".to_vec()][row]);
    }
}

#[test]
fn projection_drops_missing_field_silently() {
    // A file without "id" yields records holding only "text".
    let data = parquet_utf8(&[("text", &["a", "b"]), ("other", &["x", "y"])]);
    let recs = decode_records(&data, &req(&["text", "id"])).unwrap();
    assert_eq!(recs.len(), 2);
    for r in &recs {
        assert_eq!(r.fields.len(), 1);
        assert_eq!(r.fields[0].name, b"text".to_vec());
    }
}

#[test]
fn projection_of_no_matching_fields_keeps_row_count() {
    // Neither requested field exists: one empty record per row, the row
    // count taken from the rows the reader yields.
    let data = parquet_utf8(&[("other", &["x", "y", "z"])]);
    let recs = decode_records(&data, &req(&["text", "id"])).unwrap();
    assert_eq!(recs.len(), 3);
    for r in &recs {
        assert_eq!(r.fields.len(), 0);
    }
}

#[test]
fn projection_follows_schema_order() {
    // Requested order does not matter: fields stand in schema order.
    let data = parquet_utf8(&[("id", &["1"]), ("text", &["a"])]);
    let recs = decode_records(&data, &req(&["text", "id"])).unwrap();
    assert_eq!(recs[0].fields[0].name, b"id".to_vec());
    assert_eq!(recs[0].fields[1].name, b"text".to_vec());
}

#[test]
fn decode_rejects_non_string_projection() {
    let data = parquet_int64("num", &[1, 2, 3]);
    let err = decode_records(&data, &req(&["num"])).unwrap_err();
    assert_eq!(err, DecodeError::Column);
}

#[test]
fn decode_rejects_garbage_bytes() {
    let err = decode_records(&b"not parquet".to_vec(), &req(&["text"])).unwrap_err();
    assert_eq!(err, DecodeError::Metadata);
}

#[test]
fn empty_file_yields_no_shards() {
    // Zero rows after projection: zero artifacts, no error.
    let data = parquet_empty(&["text", "id"]);
    let mut counter = ShardCounter::new();
    let arts = process_file(
        &data,
        &b"text".to_vec(),
        &b"id".to_vec(),
        4,
        &b"/tmp/o".to_vec(),
        &b"out_".to_vec(),
        &mut counter,
    )
    .unwrap();
    assert_eq!(arts.len(), 0);
    assert_eq!(counter.next_id, 0);
}

#[test]
fn end_to_end_three_rows_two_per_shard() {
    // Three rows, max_docs = 2: two artifacts, named in order, each
    // holding the right JSON lines.
    let data = parquet_utf8(&[("text", &["a", "b", "c"]), ("id", &["1", "2", "3"])]);
    let mut counter = ShardCounter::new();
    let arts = process_file(
        &data,
        &b"text".to_vec(),
        &b"id".to_vec(),
        2,
        &b"/tmp/o".to_vec(),
        &b"out_".to_vec(),
        &mut counter,
    )
    .unwrap();
    assert_eq!(arts.len(), 2);
    assert_eq!(counter.next_id, 2);
    assert_eq!(arts[0].path, b"/tmp/o/out_00000000.jsonl.gz".to_vec());
    assert_eq!(arts[1].path, b"/tmp/o/out_00000001.jsonl.gz".to_vec());
    let first = gunzip(&arts[0].data);
    let second = gunzip(&arts[1].data);
    let first_lines: Vec<&[u8]> = first.split(|b| *b == b'\n').collect();
    let second_lines: Vec<&[u8]> = second.split(|b| *b == b'\n').collect();
    assert_eq!(first_lines.len(), 2);
    assert_eq!(second_lines.len(), 1);
    let texts = ["a", "b", "c"];
    let ids = ["1", "2", "3"];
    for (i, line) in first_lines.iter().chain(second_lines.iter()).enumerate() {
        let v: serde_json::Value = serde_json::from_slice(line).unwrap();
        assert_eq!(v.get("text").unwrap().as_str().unwrap(), texts[i]);
        assert_eq!(v.get("id").unwrap().as_str().unwrap(), ids[i]);
        assert_eq!(v.as_object().unwrap().len(), 2);
    }
}

#[test]
fn two_files_share_the_id_space() {
    // Ids keep increasing across files processed with one counter.
    let file_a = parquet_utf8(&[("text", &["a", "b", "c"]), ("id", &["1", "2", "3"])]);
    let file_b = parquet_utf8(&[("text", &["d"]), ("id", &["4"])]);
    let mut counter = ShardCounter::new();
    let arts_a = process_file(
        &file_a,
        &b"text".to_vec(),
        &b"id".to_vec(),
        2,
        &b"o".to_vec(),
        &b"s_".to_vec(),
        &mut counter,
    )
    .unwrap();
    let arts_b = process_file(
        &file_b,
        &b"text".to_vec(),
        &b"id".to_vec(),
        2,
        &b"o".to_vec(),
        &b"s_".to_vec(),
        &mut counter,
    )
    .unwrap();
    assert_eq!(arts_a.len(), 2);
    assert_eq!(arts_b.len(), 1);
    assert_eq!(arts_b[0].path, b"o/s_00000002.jsonl.gz".to_vec());
    assert_eq!(counter.next_id, 3);
}

#[test]
fn process_file_reports_decode_failure() {
    let mut counter = ShardCounter::new();
    let err = process_file(
        &b"broken".to_vec(),
        &b"text".to_vec(),
        &b"id".to_vec(),
        2,
        &b"o".to_vec(),
        &b"s_".to_vec(),
        &mut counter,
    )
    .unwrap_err();
    assert_eq!(err, ProcessError::Decode(DecodeError::Metadata));
    assert_eq!(counter.next_id, 0);
}

#[test]
fn discovery_flattens_in_order() {
    let listings = vec![
        LocatorListing::File(b"a.parquet".to_vec()),
        LocatorListing::Dir(vec![b"d/x.parquet".to_vec(), b"d/y.parquet".to_vec()]),
        LocatorListing::File(b"b.parquet".to_vec()),
    ];
    let files = discover_files(&listings);
    assert_eq!(
        files,
        vec![
            b"a.parquet".to_vec(),
            b"d/x.parquet".to_vec(),
            b"d/y.parquet".to_vec(),
            b"b.parquet".to_vec(),
        ]
    );
}

#[test]
fn discovery_of_empty_directory() {
    let listings = vec![LocatorListing::Dir(Vec::new())];
    let files = discover_files(&listings);
    assert_eq!(files.len(), 0);
}
