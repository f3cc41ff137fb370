//! Row records: the projected fields of one source row, in schema order,
//! every value coerced to its string (byte) representation.

use vstd::prelude::*;
use crate::bytes::clone_bytes;

verus! {

/// One projected field of a row: a field name and its string value.
#[derive(Debug)]
pub struct Field {
    pub name: Vec<u8>,
    pub value: Vec<u8>,
}

impl View for Field {
    type V = (Seq<u8>, Seq<u8>);

    open spec fn view(&self) -> (Seq<u8>, Seq<u8>) {
        (self.name@, self.value@)
    }
}

/// One source row restricted to the projected fields.
#[derive(Debug)]
pub struct Record {
    pub fields: Vec<Field>,
}

impl View for Record {
    type V = Seq<(Seq<u8>, Seq<u8>)>;

    open spec fn view(&self) -> Seq<(Seq<u8>, Seq<u8>)> {
        self.fields@.map_values(|f: Field| f@)
    }
}

/// The views of a sequence of records.
pub open spec fn recs_view(rs: Seq<Record>) -> Seq<Seq<(Seq<u8>, Seq<u8>)>> {
    rs.map_values(|r: Record| r@)
}

/// A fresh field equal to `f`.
pub fn clone_field(f: &Field) -> (r: Field)
    ensures
        r@ == f@,
{
    Field { name: clone_bytes(&f.name), value: clone_bytes(&f.value) }
}

/// A fresh record equal to `rec`.
pub fn clone_record(rec: &Record) -> (r: Record)
    ensures
        r@ == rec@,
{
    let mut fields: Vec<Field> = Vec::new();
    let mut i: usize = 0;
    while i < rec.fields.len()
        invariant
            0 <= i <= rec.fields@.len(),
            fields@.len() == i,
            forall|k: int| 0 <= k < i ==> fields@.map_values(|f: Field| f@)[k] == rec@[k],
        decreases rec.fields@.len() - i,
    {
        fields.push(clone_field(&rec.fields[i]));
        i = i + 1;
    }
    let r = Record { fields };
    proof {
        assert(r@ =~= rec@);
    }
    r
}

/// A fresh vector of records equal, view for view, to `rs`.
pub fn clone_records(rs: &Vec<Record>) -> (r: Vec<Record>)
    ensures
        recs_view(r@) == recs_view(rs@),
{
    let mut out: Vec<Record> = Vec::new();
    let mut i: usize = 0;
    while i < rs.len()
        invariant
            0 <= i <= rs@.len(),
            out@.len() == i,
            forall|k: int| 0 <= k < i ==> recs_view(out@)[k] == recs_view(rs@)[k],
        decreases rs@.len() - i,
    {
        out.push(clone_record(&rs[i]));
        i = i + 1;
    }
    proof {
        assert(recs_view(out@) =~= recs_view(rs@));
    }
    out
}

} // verus!
