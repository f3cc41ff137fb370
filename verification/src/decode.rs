//! Columnar decoding: reads a parquet file held in memory into row
//! records restricted to a requested set of field names. Requested
//! fields missing from the file's schema are silently skipped; projected
//! fields whose columns are not string-typed are an error scoped to the
//! file. The parquet format itself is read through arrow2, behind named
//! trusted contracts; the projection and the row assembly are verified.

use vstd::prelude::*;
use crate::bytes::{bytes_eq, clone_bytes};
use crate::record::{recs_view, Field, Record};

verus! {

/// Why a file failed to decode.
#[derive(Clone, Copy, PartialEq, Eq, Structural, Debug)]
pub enum DecodeError {
    /// The file's footer metadata or schema cannot be read.
    Metadata,
    /// A projected column is missing from a materialized row group, is
    /// not a string column, or the row groups cannot be read.
    Column,
}

/// The field names of the parquet file's schema, in schema order, or
/// nothing when the bytes do not parse as parquet.
pub uninterp spec fn parquet_fields(data: Seq<u8>) -> Option<Seq<Seq<u8>>>;

/// The total number of rows the parquet file's reader yields, summed
/// over all materialized row groups, or nothing when the bytes do not
/// parse or the rows cannot be counted because a row group fails to
/// materialize.
pub uninterp spec fn parquet_rows(data: Seq<u8>) -> Option<nat>;

/// The values of string column `idx`, over all row groups in row order,
/// or nothing when the bytes do not parse, the column does not exist,
/// or it is not a string column.
pub uninterp spec fn parquet_column(data: Seq<u8>, idx: int) -> Option<Seq<Seq<u8>>>;

/// Relies on arrow2's `io::parquet::read::read_metadata` and
/// `infer_schema`: both are functions of the bytes alone, and together
/// they yield the schema's field names (named `parquet_fields`), or fail
/// exactly when the footer or schema cannot be read.
#[verifier::external_body]
fn parquet_schema_names(data: &Vec<u8>) -> (r: Option<Vec<Vec<u8>>>)
    ensures
        match r {
            Some(v) => parquet_fields(data@) == Some(v.deep_view()),
            None => parquet_fields(data@) is None,
        },
{
    let mut cur = std::io::Cursor::new(data.as_slice());
    let md = arrow2::io::parquet::read::read_metadata(&mut cur).ok()?;
    let schema = arrow2::io::parquet::read::infer_schema(&md).ok()?;
    Some(schema.fields.iter().map(|f| f.name.as_bytes().to_vec()).collect())
}

/// Relies on arrow2's `io::parquet::read::FileReader`: counts the rows
/// it actually yields, summed over the materialized row groups — a
/// function of the bytes alone, named `parquet_rows` and shared with
/// `parquet_utf8_column`, whose columns carry exactly this many values.
/// The count deliberately ignores the footer's row-count field, which
/// nothing validates against the row groups.
#[verifier::external_body]
fn parquet_num_rows(data: &Vec<u8>) -> (r: Option<usize>)
    ensures
        match r {
            Some(n) => parquet_rows(data@) == Some(n as nat),
            None => parquet_rows(data@) is None,
        },
{
    let mut cur = std::io::Cursor::new(data.as_slice());
    let md = arrow2::io::parquet::read::read_metadata(&mut cur).ok()?;
    let schema = arrow2::io::parquet::read::infer_schema(&md).ok()?;
    let reader = arrow2::io::parquet::read::FileReader::new(
        cur, md.row_groups, schema, None, None, None);
    let mut n: usize = 0;
    for chunk in reader {
        n = n.checked_add(chunk.ok()?.len())?;
    }
    Some(n)
}

/// Relies on arrow2's `io::parquet::read::FileReader`: iterating it
/// materializes the row groups in row order, each chunk holding columns
/// of equal length, so column `idx` carries one value per yielded row —
/// `parquet_rows` of the file. The values are a function of the bytes
/// and the index alone, named `parquet_column`; the read fails exactly
/// when the bytes do not parse, or a materialized chunk misses the
/// column or holds it as something other than a string (`Utf8Array`)
/// column. A file whose reader yields no chunks (no row groups, or an
/// empty schema) yields the empty value sequence for every index.
#[verifier::external_body]
fn parquet_utf8_column(data: &Vec<u8>, idx: usize) -> (r: Option<Vec<Vec<u8>>>)
    ensures
        match r {
            Some(v) => parquet_column(data@, idx as int) == Some(v.deep_view())
                && parquet_rows(data@) == Some(v@.len()),
            None => parquet_column(data@, idx as int) is None,
        },
{
    let mut cur = std::io::Cursor::new(data.as_slice());
    let md = arrow2::io::parquet::read::read_metadata(&mut cur).ok()?;
    let schema = arrow2::io::parquet::read::infer_schema(&md).ok()?;
    let reader = arrow2::io::parquet::read::FileReader::new(
        cur, md.row_groups, schema, None, None, None);
    let mut out: Vec<Vec<u8>> = Vec::new();
    for chunk in reader {
        let chunk = chunk.ok()?;
        let col = chunk.columns().get(idx)?;
        let arr = col.as_any().downcast_ref::<arrow2::array::Utf8Array<i32>>()?;
        out.extend(arr.values_iter().map(|s| s.as_bytes().to_vec()));
    }
    Some(out)
}

/// The schema indices of the first `n` fields that the projection keeps:
/// a field is kept when its name is requested and it is the first field
/// of that name, and the kept indices stand in schema order.
pub open spec fn resolved_upto(fields: Seq<Seq<u8>>, req: Seq<Seq<u8>>, n: int) -> Seq<int>
    decreases n,
{
    if n <= 0 {
        Seq::empty()
    } else {
        let pre = resolved_upto(fields, req, n - 1);
        if req.contains(fields[n - 1]) && !fields.subrange(0, n - 1).contains(fields[n - 1]) {
            pre.push(n - 1)
        } else {
            pre
        }
    }
}

/// The schema indices that projecting `req` out of `fields` keeps.
pub open spec fn spec_resolved(fields: Seq<Seq<u8>>, req: Seq<Seq<u8>>) -> Seq<int> {
    resolved_upto(fields, req, fields.len() as int)
}

/// Every resolved index is a valid schema index.
pub proof fn lemma_resolved_in_bounds(fields: Seq<Seq<u8>>, req: Seq<Seq<u8>>, n: int)
    requires
        n <= fields.len(),
    ensures
        forall|k: int|
            0 <= k < resolved_upto(fields, req, n).len() ==> 0 <= #[trigger] resolved_upto(
                fields,
                req,
                n,
            )[k] < n,
    decreases n,
{
    if n > 0 {
        lemma_resolved_in_bounds(fields, req, n - 1);
        let pre = resolved_upto(fields, req, n - 1);
        let cur = resolved_upto(fields, req, n);
        assert forall|k: int| 0 <= k < cur.len() implies 0 <= #[trigger] cur[k] < n by {
            if k < pre.len() {
                assert(cur[k] == pre[k]);
            } else {
                assert(cur[k] == n - 1);
            }
        }
    }
}

/// Every resolved index names a requested field.
pub proof fn lemma_resolved_requested(fields: Seq<Seq<u8>>, req: Seq<Seq<u8>>, n: int)
    requires
        n <= fields.len(),
    ensures
        forall|k: int|
            0 <= k < resolved_upto(fields, req, n).len() ==> req.contains(
                fields[#[trigger] resolved_upto(fields, req, n)[k]],
            ),
    decreases n,
{
    if n > 0 {
        lemma_resolved_requested(fields, req, n - 1);
        lemma_resolved_in_bounds(fields, req, n - 1);
        let pre = resolved_upto(fields, req, n - 1);
        let cur = resolved_upto(fields, req, n);
        assert forall|k: int|
            0 <= k < cur.len() implies req.contains(fields[#[trigger] cur[k]]) by {
            if k < pre.len() {
                assert(cur[k] == pre[k]);
            } else {
                assert(cur[k] == n - 1);
            }
        }
    }
}

/// Projection correctness: every field of every projected record
/// carries a name that was requested and that the schema holds, and
/// record `row` holds the values of source row `row`, so the records
/// stand in source row order and hold no other keys.
pub proof fn lemma_projection_correct(data: Seq<u8>, req: Seq<Seq<u8>>, row: int, k: int)
    requires
        parquet_fields(data) is Some,
        0 <= row < spec_projected(data, req).len(),
        0 <= k < spec_projected(data, req)[row].len(),
    ensures
        req.contains(spec_projected(data, req)[row][k].0),
        parquet_fields(data)->0.contains(spec_projected(data, req)[row][k].0),
        spec_projected(data, req)[row][k].1 == (parquet_column(
            data,
            spec_resolved(parquet_fields(data)->0, req)[k],
        )->0)[row],
{
    let fields = parquet_fields(data)->0;
    lemma_resolved_requested(fields, req, fields.len() as int);
    lemma_resolved_in_bounds(fields, req, fields.len() as int);
    let idxs = spec_resolved(fields, req);
    assert(spec_projected(data, req)[row][k].0 == fields[idxs[k]]);
    assert(fields.contains(fields[idxs[k]]));
}

/// Whether `list[0..upto]` holds `needle`.
fn contains_bytes_upto(list: &Vec<Vec<u8>>, upto: usize, needle: &Vec<u8>) -> (r: bool)
    requires
        upto <= list@.len(),
    ensures
        r == list.deep_view().subrange(0, upto as int).contains(needle@),
{
    let mut i: usize = 0;
    while i < upto
        invariant
            0 <= i <= upto <= list@.len(),
            forall|k: int| 0 <= k < i ==> list.deep_view()[k] != needle@,
        decreases upto - i,
    {
        if bytes_eq(&list[i], needle) {
            proof {
                assert(list.deep_view().subrange(0, upto as int)[i as int] == needle@);
            }
            return true;
        }
        proof {
            assert(list.deep_view()[i as int] == list@[i as int]@);
        }
        i = i + 1;
    }
    proof {
        assert forall|k: int|
            0 <= k < upto implies list.deep_view().subrange(0, upto as int)[k] != needle@ by {
            assert(list.deep_view().subrange(0, upto as int)[k] == list.deep_view()[k]);
        }
    }
    false
}

/// The schema indices that the projection keeps, in schema order.
fn resolve_fields(fields: &Vec<Vec<u8>>, req: &Vec<Vec<u8>>) -> (r: Vec<usize>)
    ensures
        r@.map_values(|u: usize| u as int) == spec_resolved(fields.deep_view(), req.deep_view()),
        forall|k: int| 0 <= k < r@.len() ==> (#[trigger] r@[k]) < fields@.len(),
{
    let ghost fv = fields.deep_view();
    let ghost rv = req.deep_view();
    let mut out: Vec<usize> = Vec::new();
    let mut i: usize = 0;
    while i < fields.len()
        invariant
            0 <= i <= fields@.len(),
            fv == fields.deep_view(),
            rv == req.deep_view(),
            out@.map_values(|u: usize| u as int) == resolved_upto(fv, rv, i as int),
            forall|k: int| 0 <= k < out@.len() ==> (#[trigger] out@[k]) < i,
        decreases fields@.len() - i,
    {
        let wanted = contains_bytes_upto(req, req.len(), &fields[i]);
        let dup = contains_bytes_upto(fields, i, &fields[i]);
        proof {
            assert(rv.subrange(0, rv.len() as int) =~= rv);
            assert(fields.deep_view()[i as int] == fields@[i as int]@);
        }
        if wanted && !dup {
            out.push(i);
            proof {
                assert(out@.map_values(|u: usize| u as int) =~= resolved_upto(fv, rv, i + 1));
            }
        } else {
            proof {
                assert(out@.map_values(|u: usize| u as int) =~= resolved_upto(fv, rv, i + 1));
            }
        }
        i = i + 1;
    }
    out
}

/// The projection succeeds: the schema is readable and every resolved
/// column is a string column whose data reads back.
pub open spec fn spec_decode_ok(data: Seq<u8>, req: Seq<Seq<u8>>) -> bool {
    &&& parquet_fields(data) is Some
    &&& parquet_rows(data) is Some
    &&& forall|k: int|
        0 <= k < spec_resolved(parquet_fields(data)->0, req).len() ==> parquet_column(
            data,
            #[trigger] spec_resolved(parquet_fields(data)->0, req)[k],
        ) is Some
}

/// The records a successful projection yields: one per source row, in
/// row order, each holding exactly the resolved fields in schema order
/// with that row's values.
pub open spec fn spec_projected(data: Seq<u8>, req: Seq<Seq<u8>>) -> Seq<Seq<(Seq<u8>, Seq<u8>)>> {
    let fields = parquet_fields(data)->0;
    let idxs = spec_resolved(fields, req);
    Seq::new(
        parquet_rows(data)->0,
        |row: int|
            Seq::new(
                idxs.len(),
                |k: int| (fields[idxs[k]], (parquet_column(data, idxs[k])->0)[row]),
            ),
    )
}

/// Decodes the parquet bytes into records projected to the requested
/// field names: `Ok` exactly when the schema reads, the rows can be
/// counted, and every kept column is a readable string column, and then
/// one record per row, in row order, holding the kept fields in schema
/// order; `Metadata` exactly when the schema itself cannot be read,
/// `Column` otherwise.
pub fn decode_records(data: &Vec<u8>, req: &Vec<Vec<u8>>) -> (r: Result<Vec<Record>, DecodeError>)
    ensures
        r is Ok <==> spec_decode_ok(data@, req.deep_view()),
        r matches Ok(recs) ==> recs_view(recs@) == spec_projected(data@, req.deep_view()),
        r matches Err(e) ==> (e == DecodeError::Metadata <==> parquet_fields(data@) is None),
{
    let ghost rv = req.deep_view();
    let fields = match parquet_schema_names(data) {
        Some(f) => f,
        None => {
            return Err(DecodeError::Metadata);
        },
    };
    let ghost fv = fields.deep_view();
    let idxs = resolve_fields(&fields, req);
    let ghost sidx = spec_resolved(fv, rv);
    proof {
        lemma_resolved_in_bounds(fv, rv, fv.len() as int);
    }
    let mut cols: Vec<Vec<Vec<u8>>> = Vec::new();
    let mut k: usize = 0;
    while k < idxs.len()
        invariant
            0 <= k <= idxs@.len(),
            fv == fields.deep_view(),
            rv == req.deep_view(),
            parquet_fields(data@) == Some(fv),
            sidx == spec_resolved(fv, rv),
            idxs@.map_values(|u: usize| u as int) == sidx,
            cols@.len() == k,
            forall|t: int|
                0 <= t < k ==> parquet_column(data@, sidx[t]) == Some(
                    (#[trigger] cols@[t]).deep_view(),
                ),
            forall|t: int|
                0 <= t < k ==> parquet_rows(data@) == Some((#[trigger] cols@[t])@.len()),
        decreases idxs@.len() - k,
    {
        proof {
            assert(sidx[k as int] == idxs@[k as int] as int);
        }
        match parquet_utf8_column(data, idxs[k]) {
            Some(c) => {
                cols.push(c);
            },
            None => {
                proof {
                    assert(parquet_fields(data@)->0 == fv);
                    assert(spec_resolved(parquet_fields(data@)->0, rv)[k as int]
                        == sidx[k as int]);
                    assert(parquet_column(
                        data@,
                        spec_resolved(parquet_fields(data@)->0, rv)[k as int],
                    ) is None);
                }
                return Err(DecodeError::Column);
            },
        }
        k = k + 1;
    }
    let nrows: usize = if idxs.len() > 0 {
        proof {
            assert(parquet_rows(data@) == Some(cols@[0]@.len()));
        }
        cols[0].len()
    } else {
        match parquet_num_rows(data) {
            Some(n) => n,
            None => {
                proof {
                    assert(parquet_rows(data@) is None);
                }
                return Err(DecodeError::Column);
            },
        }
    };
    proof {
        assert(parquet_rows(data@) == Some(nrows as nat));
        assert(parquet_fields(data@)->0 == fv);
        assert(idxs@.len() == sidx.len());
        assert forall|t: int|
            0 <= t < spec_resolved(parquet_fields(data@)->0, rv).len() implies parquet_column(
            data@,
            #[trigger] spec_resolved(parquet_fields(data@)->0, rv)[t],
        ) is Some by {
            assert(spec_resolved(parquet_fields(data@)->0, rv)[t] == sidx[t]);
            assert(parquet_column(data@, sidx[t]) == Some(cols@[t].deep_view()));
        }
        assert(spec_decode_ok(data@, rv));
    }
    let ghost proj = spec_projected(data@, rv);
    let mut recs: Vec<Record> = Vec::new();
    let mut row: usize = 0;
    while row < nrows
        invariant
            0 <= row <= nrows,
            parquet_rows(data@) == Some(nrows as nat),
            fv == fields.deep_view(),
            rv == req.deep_view(),
            parquet_fields(data@) == Some(fv),
            sidx == spec_resolved(fv, rv),
            idxs@.map_values(|u: usize| u as int) == sidx,
            forall|t: int| 0 <= t < idxs@.len() ==> (#[trigger] idxs@[t]) < fields@.len(),
            cols@.len() == idxs@.len(),
            forall|t: int|
                0 <= t < cols@.len() ==> parquet_column(data@, sidx[t]) == Some(
                    (#[trigger] cols@[t]).deep_view(),
                ),
            forall|t: int|
                0 <= t < cols@.len() ==> parquet_rows(data@) == Some(
                    (#[trigger] cols@[t])@.len(),
                ),
            proj == spec_projected(data@, rv),
            recs@.len() == row,
            forall|t: int| 0 <= t < row ==> (#[trigger] recs@[t])@ == proj[t],
        decreases nrows - row,
    {
        let mut fs: Vec<Field> = Vec::new();
        let mut k: usize = 0;
        while k < idxs.len()
            invariant
                0 <= k <= idxs@.len(),
                0 <= row < nrows,
                parquet_rows(data@) == Some(nrows as nat),
                fv == fields.deep_view(),
                sidx == spec_resolved(fv, rv),
                idxs@.map_values(|u: usize| u as int) == sidx,
                forall|t: int| 0 <= t < idxs@.len() ==> (#[trigger] idxs@[t]) < fields@.len(),
                cols@.len() == idxs@.len(),
                forall|t: int|
                    0 <= t < cols@.len() ==> parquet_column(data@, sidx[t]) == Some(
                        (#[trigger] cols@[t]).deep_view(),
                    ),
                forall|t: int|
                    0 <= t < cols@.len() ==> parquet_rows(data@) == Some(
                        (#[trigger] cols@[t])@.len(),
                    ),
                fs@.len() == k,
                forall|t: int|
                    0 <= t < k ==> (#[trigger] fs@[t])@ == (
                        fv[sidx[t]],
                        (parquet_column(data@, sidx[t])->0)[row as int],
                    ),
            decreases idxs@.len() - k,
        {
            proof {
                assert(sidx[k as int] == idxs@[k as int] as int);
                assert(fields.deep_view()[idxs@[k as int] as int] == fields@[idxs@[k as int] as int]@);
                assert(cols@[k as int].deep_view()[row as int] == cols@[k as int]@[row as int]@);
            }
            let name = clone_bytes(&fields[idxs[k]]);
            let value = clone_bytes(&cols[k][row]);
            fs.push(Field { name, value });
            k = k + 1;
        }
        let rec = Record { fields: fs };
        proof {
            assert(rec@ =~= proj[row as int]);
        }
        recs.push(rec);
        row = row + 1;
    }
    proof {
        assert(recs_view(recs@) =~= proj);
    }
    Ok(recs)
}

} // verus!
