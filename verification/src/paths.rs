//! Path handling on byte strings: file-name and extension extraction,
//! extension classification, and output-shard file naming.
//!
//! Paths are handled as byte strings. `/` separates components; the
//! extension of a path is the part of its file name after the last `.`,
//! provided that dot is not the file name's first byte (so a leading-dot
//! name such as `.config` has no extension). This mirrors how the
//! platform's path library reads extensions for UTF-8 paths.

use vstd::prelude::*;
use vstd::string::StrSliceExecFns;
use vstd::string::StringSliceAdditionalSpecFns;
use crate::bytes::{clone_bytes, push_bytes, suffix_from};

verus! {

pub const SLASH_BYTE: u8 = 47;

pub const DOT_BYTE: u8 = 46;

/// `j` is the position of the last occurrence of `b` in `s`.
pub open spec fn is_last_pos(s: Seq<u8>, b: u8, j: int) -> bool {
    &&& 0 <= j < s.len()
    &&& s[j] == b
    &&& forall|k: int| j < k < s.len() ==> s[k] != b
}

/// `s` holds at least one occurrence of `b`.
pub open spec fn has_byte(s: Seq<u8>, b: u8) -> bool {
    exists|k: int| 0 <= k < s.len() && s[k] == b
}

/// The position of the last occurrence of `b` in `s` (meaningful only
/// when `has_byte(s, b)` holds).
pub open spec fn last_pos(s: Seq<u8>, b: u8) -> int {
    choose|j: int| is_last_pos(s, b, j)
}

pub proof fn lemma_is_last_pos_unique(s: Seq<u8>, b: u8, j: int)
    requires
        is_last_pos(s, b, j),
    ensures
        last_pos(s, b) == j,
{
    let j2 = choose|j2: int| is_last_pos(s, b, j2);
    assert(is_last_pos(s, b, j2));
    if j < j2 {
        assert(s[j2] != b);
    } else if j2 < j {
        assert(s[j] != b);
    }
}

/// The file-name part of `p`: everything after the last `/`, or all of
/// `p` when it holds no `/`.
pub open spec fn spec_file_part(p: Seq<u8>) -> Seq<u8> {
    if has_byte(p, SLASH_BYTE) {
        p.subrange(last_pos(p, SLASH_BYTE) + 1, p.len() as int)
    } else {
        p
    }
}

/// The extension of `p`: the part of its file name after the last `.`,
/// provided that dot is not the file name's first byte.
pub open spec fn spec_extension(p: Seq<u8>) -> Option<Seq<u8>> {
    let f = spec_file_part(p);
    if has_byte(f, DOT_BYTE) && last_pos(f, DOT_BYTE) > 0 {
        Some(f.subrange(last_pos(f, DOT_BYTE) + 1, f.len() as int))
    } else {
        None
    }
}

/// The position of the last occurrence of `b` in `s`, if any.
pub fn rfind_byte(s: &Vec<u8>, b: u8) -> (r: Option<usize>)
    ensures
        match r {
            Some(j) => is_last_pos(s@, b, j as int) && last_pos(s@, b) == j as int,
            None => !has_byte(s@, b),
        },
{
    let mut i: usize = s.len();
    while i > 0
        invariant
            0 <= i <= s@.len(),
            forall|k: int| i <= k < s@.len() ==> s@[k] != b,
        decreases i,
    {
        i = i - 1;
        if s[i] == b {
            proof {
                lemma_is_last_pos_unique(s@, b, i as int);
            }
            return Some(i);
        }
    }
    None
}

/// The file-name part of `path`: everything after the last `/`.
pub fn file_part(path: &Vec<u8>) -> (r: Vec<u8>)
    ensures
        r@ == spec_file_part(path@),
{
    match rfind_byte(path, SLASH_BYTE) {
        Some(j) => {
            proof {
                assert(j < path.len());
            }
            suffix_from(path, j + 1)
        },
        None => clone_bytes(path),
    }
}

/// The extension of `path`, if it has one.
pub fn extension_of(path: &Vec<u8>) -> (r: Option<Vec<u8>>)
    ensures
        match r {
            Some(e) => spec_extension(path@) == Some(e@),
            None => spec_extension(path@) is None,
        },
{
    let f = file_part(path);
    match rfind_byte(&f, DOT_BYTE) {
        Some(j) => {
            if j > 0 {
                proof {
                    assert(j < f.len());
                }
                Some(suffix_from(&f, j + 1))
            } else {
                None
            }
        },
        None => None,
    }
}

/// When `s` holds `b` at all, `last_pos(s, b)` really is its last
/// occurrence.
pub proof fn lemma_last_pos_exists(s: Seq<u8>, b: u8)
    requires
        has_byte(s, b),
    ensures
        is_last_pos(s, b, last_pos(s, b)),
    decreases s.len(),
{
    if s[s.len() - 1] == b {
        assert(is_last_pos(s, b, s.len() - 1));
    } else {
        let k = choose|k: int| 0 <= k < s.len() && s[k] == b;
        let t = s.drop_last();
        assert(0 <= k < t.len() && t[k] == b);
        lemma_last_pos_exists(t, b);
        let j = last_pos(t, b);
        assert forall|m: int| j < m < s.len() implies s[m] != b by {
            if m < s.len() - 1 {
                assert(t[m] == s[m]);
                assert(t[m] != b);
            } else {
                assert(m == s.len() - 1);
            }
        }
        assert(is_last_pos(s, b, j));
    }
    let lj = last_pos(s, b);
    assert(is_last_pos(s, b, lj));
}

// The bytes of "json" and of "json.".
pub open spec fn json_bytes() -> Seq<u8> {
    seq![106u8, 115u8, 111u8, 110u8]
}

pub open spec fn json_dot_bytes() -> Seq<u8> {
    seq![106u8, 115u8, 111u8, 110u8, 46u8]
}

/// The path's extension is `json`, or begins with `json.`.
pub open spec fn spec_has_json_extension(p: Seq<u8>) -> bool {
    match spec_extension(p) {
        Some(e) => e == json_bytes() || (e.len() >= 5 && e.subrange(0, 5) == json_dot_bytes()),
        None => false,
    }
}

/// Whether `path` names a JSON-lines file: its extension is `json` or
/// begins with `json.`.
pub fn has_json_extension(path: &str) -> (r: bool)
    ensures
        r == spec_has_json_extension(path.spec_bytes()),
{
    let p = path.as_bytes_vec();
    match extension_of(&p) {
        Some(e) => {
            if e.len() == 4 && e[0] == 106 && e[1] == 115 && e[2] == 111 && e[3] == 110 {
                proof {
                    assert(e@ =~= json_bytes());
                }
                true
            } else if e.len() >= 5 && e[0] == 106 && e[1] == 115 && e[2] == 111 && e[3] == 110
                && e[4] == 46 {
                proof {
                    assert(e@.subrange(0, 5) =~= json_dot_bytes());
                }
                true
            } else {
                proof {
                    assert(e@ != json_bytes());
                    if e@.len() >= 5 && e@.subrange(0, 5) == json_dot_bytes() {
                        assert(e@[0] == 106 && e@[1] == 115 && e@[2] == 111 && e@[3] == 110
                            && e@[4] == 46) by {
                            assert(forall|i: int| 0 <= i < 5 ==> e@.subrange(0, 5)[i] == e@[i]);
                        }
                    }
                }
                false
            }
        },
        None => false,
    }
}

// Decimal rendering of shard ids.
/// The ASCII digits of `n`, most significant first.
pub open spec fn spec_decimal(n: nat) -> Seq<u8>
    decreases n,
{
    if n < 10 {
        seq![(48 + n) as u8]
    } else {
        spec_decimal(n / 10).push((48 + n % 10) as u8)
    }
}

/// The digits of `n`, left-padded with `0` to at least 8 digits.
pub open spec fn spec_padded8(n: nat) -> Seq<u8> {
    let d = spec_decimal(n);
    if d.len() >= 8 {
        d
    } else {
        Seq::new((8 - d.len()) as nat, |i: int| 48u8) + d
    }
}

pub proof fn lemma_decimal_is_digits(n: nat)
    ensures
        forall|i: int|
            0 <= i < spec_decimal(n).len() ==> 48 <= #[trigger] spec_decimal(n)[i] <= 57,
    decreases n,
{
    if n < 10 {
        assert(spec_decimal(n)[0] == (48 + n) as u8);
    } else {
        lemma_decimal_is_digits(n / 10);
        let d = spec_decimal(n / 10);
        assert forall|i: int|
            0 <= i < spec_decimal(n).len() implies 48 <= #[trigger] spec_decimal(n)[i] <= 57 by {
            if i < d.len() {
                assert(spec_decimal(n)[i] == d[i]);
            } else {
                assert(spec_decimal(n)[i] == (48 + n % 10) as u8);
            }
        }
    }
}

pub proof fn lemma_padded8_is_digits(n: nat)
    ensures
        spec_padded8(n).len() >= 8,
        forall|i: int|
            0 <= i < spec_padded8(n).len() ==> 48 <= #[trigger] spec_padded8(n)[i] <= 57,
{
    lemma_decimal_is_digits(n);
}

/// Appends the decimal digits of `n` to `out`.
pub fn push_decimal(out: &mut Vec<u8>, n: usize)
    ensures
        final(out)@ == old(out)@ + spec_decimal(n as nat),
    decreases n,
{
    if n < 10 {
        out.push(48 + n as u8);
        proof {
            assert(old(out)@.push((48 + n as nat) as u8) =~= old(out)@ + spec_decimal(n as nat));
        }
    } else {
        push_decimal(out, n / 10);
        out.push(48 + (n % 10) as u8);
        proof {
            assert((old(out)@ + spec_decimal((n / 10) as nat)).push((48 + (n % 10) as nat) as u8)
                =~= old(out)@ + spec_decimal(n as nat));
        }
    }
}

/// Appends the digits of `n`, zero-padded to at least 8, to `out`.
pub fn push_padded8(out: &mut Vec<u8>, n: usize)
    ensures
        final(out)@ == old(out)@ + spec_padded8(n as nat),
{
    let mut digits: Vec<u8> = Vec::new();
    push_decimal(&mut digits, n);
    proof {
        assert(Seq::<u8>::empty() + spec_decimal(n as nat) =~= spec_decimal(n as nat));
    }
    if digits.len() < 8 {
        let pad: usize = 8 - digits.len();
        let mut i: usize = 0;
        while i < pad
            invariant
                0 <= i <= pad,
                out@ == old(out)@ + Seq::new(i as nat, |k: int| 48u8),
            decreases pad - i,
        {
            out.push(48);
            proof {
                assert((old(out)@ + Seq::new(i as nat, |k: int| 48u8)).push(48u8)
                    =~= old(out)@ + Seq::new((i + 1) as nat, |k: int| 48u8));
            }
            i = i + 1;
        }
        push_bytes(out, &digits);
        proof {
            assert(old(out)@ + Seq::new(pad as nat, |k: int| 48u8) + spec_decimal(n as nat)
                =~= old(out)@ + spec_padded8(n as nat));
        }
    } else {
        push_bytes(out, &digits);
    }
}

// Output shard paths.
/// The bytes of ".jsonl.gz".
pub open spec fn jsonl_gz_bytes() -> Seq<u8> {
    seq![46u8, 106u8, 115u8, 111u8, 110u8, 108u8, 46u8, 103u8, 122u8]
}

/// The bytes of "gz".
pub open spec fn gz_bytes() -> Seq<u8> {
    seq![103u8, 122u8]
}

/// The output path of shard `id`:
/// `<dir>/<prefix><id, zero-padded to 8 digits>.jsonl.gz`.
pub open spec fn spec_output_path(dir: Seq<u8>, prefix: Seq<u8>, id: nat) -> Seq<u8> {
    dir + seq![47u8] + prefix + spec_padded8(id) + jsonl_gz_bytes()
}

/// Builds the output path of shard `id` under `dir`.
pub fn output_path(dir: &Vec<u8>, prefix: &Vec<u8>, id: usize) -> (r: Vec<u8>)
    ensures
        r@ == spec_output_path(dir@, prefix@, id as nat),
{
    let mut out = clone_bytes(dir);
    out.push(47);
    push_bytes(&mut out, prefix);
    push_padded8(&mut out, id);
    out.push(46);
    out.push(106);
    out.push(115);
    out.push(111);
    out.push(110);
    out.push(108);
    out.push(46);
    out.push(103);
    out.push(122);
    proof {
        assert(out@ =~= spec_output_path(dir@, prefix@, id as nat));
    }
    out
}

/// The bytes of "/**/*.parquet".
pub open spec fn parquet_glob_suffix() -> Seq<u8> {
    seq![
        47u8, 42u8, 42u8, 47u8, 42u8, 46u8, 112u8, 97u8, 114u8, 113u8, 117u8, 101u8, 116u8,
    ]
}

/// The recursive match pattern for parquet files under `dir`:
/// `<dir>/**/*.parquet`.
pub fn parquet_glob_pattern(dir: &Vec<u8>) -> (r: Vec<u8>)
    ensures
        r@ == dir@ + parquet_glob_suffix(),
{
    let mut out = clone_bytes(dir);
    out.push(47);
    out.push(42);
    out.push(42);
    out.push(47);
    out.push(42);
    out.push(46);
    out.push(112);
    out.push(97);
    out.push(114);
    out.push(113);
    out.push(117);
    out.push(101);
    out.push(116);
    proof {
        assert(out@ =~= dir@ + parquet_glob_suffix());
    }
    out
}

/// Every output path carries the `gz` extension, whatever the directory,
/// prefix and id hold.
pub proof fn lemma_output_path_extension(dir: Seq<u8>, prefix: Seq<u8>, id: nat)
    ensures
        spec_extension(spec_output_path(dir, prefix, id)) == Some(gz_bytes()),
{
    let p = spec_output_path(dir, prefix, id);
    let n = p.len() as int;
    lemma_padded8_is_digits(id);
    let tail = (spec_padded8(id).len() + 9) as int;
    // The final `tail` bytes are digits followed by ".jsonl.gz": none is '/'.
    assert(forall|k: int| n - tail <= k < n ==> p[k] != SLASH_BYTE);
    assert(p[dir.len() as int] == SLASH_BYTE);
    assert(has_byte(p, SLASH_BYTE));
    lemma_last_pos_exists(p, SLASH_BYTE);
    let ls = last_pos(p, SLASH_BYTE);
    assert(ls < n - tail);
    let f = spec_file_part(p);
    assert(f == p.subrange(ls + 1, n));
    assert(f.len() >= tail);
    // The last '.' of the file name sits right before "gz".
    let dj = f.len() - 3;
    assert(f[dj] == 46);
    assert(forall|k: int| dj < k < f.len() ==> f[k] != DOT_BYTE);
    assert(is_last_pos(f, DOT_BYTE, dj));
    lemma_is_last_pos_unique(f, DOT_BYTE, dj);
    assert(dj > 0);
    assert(f.subrange(dj + 1, f.len() as int) =~= gz_bytes());
}

} // verus!
