//! Serialization of records as JSON lines: each record becomes one flat
//! JSON object whose keys and string values are escaped byte-wise, and a
//! shard's records are joined with single newlines (none trailing).

use vstd::prelude::*;
use crate::record::{recs_view, Record};

verus! {

/// The ASCII byte of hex digit `d` (lower case letters).
pub open spec fn hex_byte(d: nat) -> u8 {
    if d < 10 {
        (48 + d) as u8
    } else {
        (87 + d) as u8
    }
}

/// How one byte of a string appears inside a JSON string literal:
/// quote and backslash get a backslash escape, the named control
/// characters get their short escapes, other control bytes get `\u00XX`,
/// and everything else (including UTF-8 continuation bytes) stands as is.
pub open spec fn escape_byte(b: u8) -> Seq<u8> {
    if b == 34 {
        seq![92u8, 34u8]
    } else if b == 92 {
        seq![92u8, 92u8]
    } else if b == 8 {
        seq![92u8, 98u8]
    } else if b == 9 {
        seq![92u8, 116u8]
    } else if b == 10 {
        seq![92u8, 110u8]
    } else if b == 12 {
        seq![92u8, 102u8]
    } else if b == 13 {
        seq![92u8, 114u8]
    } else if b < 32 {
        seq![92u8, 117u8, 48u8, 48u8, hex_byte((b / 16) as nat), hex_byte((b % 16) as nat)]
    } else {
        seq![b]
    }
}

/// The JSON escaping of a whole byte string.
pub open spec fn spec_escaped(s: Seq<u8>) -> Seq<u8>
    decreases s.len(),
{
    if s.len() == 0 {
        Seq::empty()
    } else {
        spec_escaped(s.drop_last()) + escape_byte(s.last())
    }
}

/// The JSON text of one field: `"name":"value"`, both parts escaped.
pub open spec fn spec_field_text(f: (Seq<u8>, Seq<u8>)) -> Seq<u8> {
    seq![34u8] + spec_escaped(f.0) + seq![34u8, 58u8, 34u8] + spec_escaped(f.1) + seq![34u8]
}

/// The comma-joined field texts of a record.
pub open spec fn spec_fields_text(fs: Seq<(Seq<u8>, Seq<u8>)>) -> Seq<u8>
    decreases fs.len(),
{
    if fs.len() == 0 {
        Seq::empty()
    } else if fs.len() == 1 {
        spec_field_text(fs[0])
    } else {
        spec_fields_text(fs.drop_last()) + seq![44u8] + spec_field_text(fs.last())
    }
}

/// The JSON line of one record: a flat object of its fields in order.
pub open spec fn spec_record_line(fields: Seq<(Seq<u8>, Seq<u8>)>) -> Seq<u8> {
    seq![123u8] + spec_fields_text(fields) + seq![125u8]
}

/// The payload of a shard: its records' lines joined with single
/// newlines, with no trailing newline.
pub open spec fn spec_shard_payload(recs: Seq<Seq<(Seq<u8>, Seq<u8>)>>) -> Seq<u8>
    decreases recs.len(),
{
    if recs.len() == 0 {
        Seq::empty()
    } else if recs.len() == 1 {
        spec_record_line(recs[0])
    } else {
        spec_shard_payload(recs.drop_last()) + seq![10u8] + spec_record_line(recs.last())
    }
}

/// The ASCII byte of hex digit `d`.
fn hex_byte_exec(d: u8) -> (r: u8)
    requires
        d < 16,
    ensures
        r == hex_byte(d as nat),
{
    if d < 10 {
        48 + d
    } else {
        87 + d
    }
}

/// Appends the JSON escape of one byte to `out`.
fn push_escaped_byte(out: &mut Vec<u8>, b: u8)
    ensures
        final(out)@ == old(out)@ + escape_byte(b),
{
    if b == 34 {
        out.push(92);
        out.push(34);
        proof {
            assert(out@ =~= old(out)@ + escape_byte(b));
        }
    } else if b == 92 {
        out.push(92);
        out.push(92);
        proof {
            assert(out@ =~= old(out)@ + escape_byte(b));
        }
    } else if b == 8 {
        out.push(92);
        out.push(98);
        proof {
            assert(out@ =~= old(out)@ + escape_byte(b));
        }
    } else if b == 9 {
        out.push(92);
        out.push(116);
        proof {
            assert(out@ =~= old(out)@ + escape_byte(b));
        }
    } else if b == 10 {
        out.push(92);
        out.push(110);
        proof {
            assert(out@ =~= old(out)@ + escape_byte(b));
        }
    } else if b == 12 {
        out.push(92);
        out.push(102);
        proof {
            assert(out@ =~= old(out)@ + escape_byte(b));
        }
    } else if b == 13 {
        out.push(92);
        out.push(114);
        proof {
            assert(out@ =~= old(out)@ + escape_byte(b));
        }
    } else if b < 32 {
        out.push(92);
        out.push(117);
        out.push(48);
        out.push(48);
        out.push(hex_byte_exec(b / 16));
        out.push(hex_byte_exec(b % 16));
        proof {
            assert(out@ =~= old(out)@ + escape_byte(b));
        }
    } else {
        out.push(b);
        proof {
            assert(out@ =~= old(out)@ + escape_byte(b));
        }
    }
}

/// Appends the JSON escaping of `s` to `out`.
fn push_escaped(out: &mut Vec<u8>, s: &Vec<u8>)
    ensures
        final(out)@ == old(out)@ + spec_escaped(s@),
{
    let mut i: usize = 0;
    while i < s.len()
        invariant
            0 <= i <= s@.len(),
            out@ == old(out)@ + spec_escaped(s@.subrange(0, i as int)),
        decreases s@.len() - i,
    {
        push_escaped_byte(out, s[i]);
        proof {
            let pre = s@.subrange(0, i as int);
            let post = s@.subrange(0, i + 1);
            assert(post.drop_last() =~= pre);
            assert(post.last() == s@[i as int]);
            assert(old(out)@ + spec_escaped(pre) + escape_byte(s@[i as int])
                =~= old(out)@ + spec_escaped(post));
        }
        i = i + 1;
    }
    proof {
        assert(s@.subrange(0, s@.len() as int) =~= s@);
    }
}

/// The JSON line of `rec`.
pub fn record_line(rec: &Record) -> (r: Vec<u8>)
    ensures
        r@ == spec_record_line(rec@),
{
    let mut out: Vec<u8> = Vec::new();
    out.push(123);
    proof {
        assert(out@ =~= seq![123u8] + spec_fields_text(rec@.subrange(0, 0)));
    }
    let mut i: usize = 0;
    while i < rec.fields.len()
        invariant
            0 <= i <= rec.fields@.len(),
            rec@.len() == rec.fields@.len(),
            out@ == seq![123u8] + spec_fields_text(rec@.subrange(0, i as int)),
        decreases rec.fields@.len() - i,
    {
        if i > 0 {
            out.push(44);
        }
        let ghost mid = out@;
        out.push(34);
        push_escaped(&mut out, &rec.fields[i].name);
        out.push(34);
        out.push(58);
        out.push(34);
        push_escaped(&mut out, &rec.fields[i].value);
        out.push(34);
        proof {
            let pre = rec@.subrange(0, i as int);
            let post = rec@.subrange(0, i + 1);
            assert(post.drop_last() =~= pre);
            assert(post.last() == rec@[i as int]);
            assert(rec@[i as int] == rec.fields@[i as int]@);
            assert(out@ =~= mid + spec_field_text(rec@[i as int]));
            assert(out@ =~= seq![123u8] + spec_fields_text(post));
        }
        i = i + 1;
    }
    out.push(125);
    proof {
        assert(rec@.subrange(0, rec@.len() as int) =~= rec@);
        assert(out@ =~= spec_record_line(rec@));
    }
    out
}

/// The newline-joined JSON lines of all records, in order.
pub fn shard_payload(records: &Vec<Record>) -> (r: Vec<u8>)
    ensures
        r@ == spec_shard_payload(recs_view(records@)),
{
    let mut out: Vec<u8> = Vec::new();
    let mut i: usize = 0;
    while i < records.len()
        invariant
            0 <= i <= records@.len(),
            out@ == spec_shard_payload(recs_view(records@).subrange(0, i as int)),
        decreases records@.len() - i,
    {
        if i > 0 {
            out.push(10);
        }
        let ghost mid = out@;
        let mut line = record_line(&records[i]);
        out.append(&mut line);
        proof {
            let pre = recs_view(records@).subrange(0, i as int);
            let post = recs_view(records@).subrange(0, i + 1);
            assert(post.drop_last() =~= pre);
            assert(post.last() == recs_view(records@)[i as int]);
            assert(recs_view(records@)[i as int] == records@[i as int]@);
            assert(out@ =~= mid + spec_record_line(records@[i as int]@));
            assert(out@ =~= spec_shard_payload(post));
        }
        i = i + 1;
    }
    proof {
        assert(recs_view(records@).subrange(0, records@.len() as int) =~= recs_view(records@));
    }
    out
}

} // verus!
