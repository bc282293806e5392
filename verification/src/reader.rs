//! Normalizing a raw compiler dump: keep only the lines carrying the
//! `print-type-size ` prefix, strip that prefix, and drop the trailing
//! newline.  Reading the bytes in is the caller's concern; this is the pure
//! part.

use vstd::prelude::*;
use crate::parser::{spec_match_tag, spec_run_end_not};

verus! {

/// `"print-type-size "`
pub open spec fn reader_prefix() -> Seq<u8> {
    seq![
        112u8,
        114u8,
        105u8,
        110u8,
        116u8,
        45u8,
        116u8,
        121u8,
        112u8,
        101u8,
        45u8,
        115u8,
        105u8,
        122u8,
        101u8,
        32u8,
    ]
}

/// What one line contributes: the bytes after the prefix up to `lineend`
/// (its newline included) when the line starts with the prefix, nothing
/// otherwise.
pub open spec fn spec_refine_line(s: Seq<u8>, i: int, lineend: int) -> Seq<u8> {
    if spec_match_tag(s, i, reader_prefix()) && i + 16 <= lineend {
        s.subrange(i + 16, lineend)
    } else {
        Seq::empty()
    }
}

/// The kept content of the raw input from position `i`, line by line.
pub open spec fn spec_refine_from(s: Seq<u8>, i: int) -> Seq<u8>
    decreases s.len() - i,
{
    if !(0 <= i < s.len()) {
        Seq::empty()
    } else {
        let j = spec_run_end_not(s, i, 10u8);
        if j < s.len() && i <= j {
            spec_refine_line(s, i, j + 1) + spec_refine_from(s, j + 1)
        } else {
            spec_refine_line(s, i, j)
        }
    }
}

/// The normalized input: the kept content of every line, with one trailing
/// newline removed when present.
pub open spec fn spec_refine(s: Seq<u8>) -> Seq<u8> {
    let r = spec_refine_from(s, 0);
    if r.len() > 0 && r.last() == 10u8 {
        r.drop_last()
    } else {
        r
    }
}

fn reader_prefix_vec() -> (r: Vec<u8>)
    ensures
        r@ == reader_prefix(),
{
    let mut v: Vec<u8> = Vec::new();
    v.push(112u8);
    v.push(114u8);
    v.push(105u8);
    v.push(110u8);
    v.push(116u8);
    v.push(45u8);
    v.push(116u8);
    v.push(121u8);
    v.push(112u8);
    v.push(101u8);
    v.push(45u8);
    v.push(115u8);
    v.push(105u8);
    v.push(122u8);
    v.push(101u8);
    v.push(32u8);
    assert(v@ =~= reader_prefix());
    v
}

/// Strips the `print-type-size ` prefix from each line, discards the lines
/// without it, and removes the trailing newline.
pub fn refine(raw: &Vec<u8>) -> (r: Vec<u8>)
    ensures
        r@ == spec_refine(raw@),
{
    let prefix = reader_prefix_vec();
    let mut out: Vec<u8> = Vec::new();
    let mut pos: usize = 0;
    loop
        invariant_except_break
            pos <= raw@.len(),
            prefix@ == reader_prefix(),
            out@ + spec_refine_from(raw@, pos as int) =~= spec_refine_from(raw@, 0),
        ensures
            out@ =~= spec_refine_from(raw@, 0),
        decreases raw@.len() - pos,
    {
        if pos >= raw.len() {
            proof {
                assert(spec_refine_from(raw@, pos as int) =~= Seq::<u8>::empty());
                assert(out@ + spec_refine_from(raw@, pos as int) =~= out@);
            }
            break;
        }
        let j = crate::parser::run_end_not(raw, pos, 10u8);
        let lineend = if j < raw.len() {
            j + 1
        } else {
            j
        };
        let ghost outpre = out@;
        if crate::parser::match_tag(raw, pos, &prefix) {
            proof {
                if j < raw@.len() && j < pos + 16 {
                    assert(raw@.subrange(pos as int, pos + 16)[j - pos] == raw@[j as int]);
                    assert(reader_prefix()[j - pos] != 10u8);
                    assert(false);
                }
            }
            let mut k: usize = pos + 16;
            while k < lineend
                invariant
                    pos + 16 <= k <= lineend <= raw@.len(),
                    out@ =~= outpre + raw@.subrange(pos + 16, k as int),
                decreases lineend - k,
            {
                let c = raw[k];
                out.push(c);
                proof {
                    assert(out@ =~= outpre + raw@.subrange(pos + 16, k + 1));
                }
                k = k + 1;
            }
        }
        proof {
            assert(out@ =~= outpre + spec_refine_line(raw@, pos as int, lineend as int));
            if j < raw.len() {
                assert(spec_refine_from(raw@, pos as int) =~= spec_refine_line(
                    raw@,
                    pos as int,
                    j + 1,
                ) + spec_refine_from(raw@, j + 1));
            } else {
                assert(spec_refine_from(raw@, pos as int) =~= spec_refine_line(
                    raw@,
                    pos as int,
                    j as int,
                ));
                assert(spec_refine_from(raw@, j as int) =~= Seq::<u8>::empty());
            }
            assert(out@ + spec_refine_from(raw@, lineend as int) =~= spec_refine_from(raw@, 0));
        }
        pos = lineend;
    }
    if out.len() > 0 && out[out.len() - 1] == 10u8 {
        out.pop();
        proof {
            assert(out@ =~= spec_refine(raw@));
        }
    }
    proof {
        assert(out@ =~= spec_refine(raw@));
    }
    out
}

} // verus!
