//! The parser: a recursive-descent reading of the indentation-structured
//! type-layout report.  Each grammar rule has a mathematical statement
//! (`spec_…` over `Seq<u8>` and a position) and an executable parser proved
//! equal to it; [`parse`]'s contract is stated over `spec_types`.

use vstd::prelude::*;
use crate::schema::{
    EnumType, EnumTypeV, EnumVariant, EnumVariantV, Field, FieldKind, FieldOrPadding,
    FieldOrPaddingV, FieldV, StructType, StructTypeV, Type, TypeKind, TypeKindV, TypeV,
};

verus! {

// ---------------------------------------------------------------------------
// Literal tags of the grammar
// ---------------------------------------------------------------------------

/// `"type: "`
pub open spec fn tag_type() -> Seq<u8> {
    seq![116u8, 121u8, 112u8, 101u8, 58u8, 32u8]
}

/// `": "`
pub open spec fn tag_colon_sp() -> Seq<u8> {
    seq![58u8, 32u8]
}

/// `", "`
pub open spec fn tag_comma_sp() -> Seq<u8> {
    seq![44u8, 32u8]
}

/// `" bytes"`
pub open spec fn tag_sp_bytes() -> Seq<u8> {
    seq![32u8, 98u8, 121u8, 116u8, 101u8, 115u8]
}

/// `"alignment: "`
pub open spec fn tag_alignment() -> Seq<u8> {
    seq![97u8, 108u8, 105u8, 103u8, 110u8, 109u8, 101u8, 110u8, 116u8, 58u8, 32u8]
}

/// `"offset: "`
pub open spec fn tag_offset() -> Seq<u8> {
    seq![111u8, 102u8, 102u8, 115u8, 101u8, 116u8, 58u8, 32u8]
}

/// `"field "`
pub open spec fn tag_field() -> Seq<u8> {
    seq![102u8, 105u8, 101u8, 108u8, 100u8, 32u8]
}

/// `"upvar "`
pub open spec fn tag_upvar() -> Seq<u8> {
    seq![117u8, 112u8, 118u8, 97u8, 114u8, 32u8]
}

/// `"local "`
pub open spec fn tag_local() -> Seq<u8> {
    seq![108u8, 111u8, 99u8, 97u8, 108u8, 32u8]
}

/// `"padding: "`
pub open spec fn tag_padding() -> Seq<u8> {
    seq![112u8, 97u8, 100u8, 100u8, 105u8, 110u8, 103u8, 58u8, 32u8]
}

/// `"variant "`
pub open spec fn tag_variant() -> Seq<u8> {
    seq![118u8, 97u8, 114u8, 105u8, 97u8, 110u8, 116u8, 32u8]
}

/// `"discriminant: "`
pub open spec fn tag_discriminant() -> Seq<u8> {
    seq![100u8, 105u8, 115u8, 99u8, 114u8, 105u8, 109u8, 105u8, 110u8, 97u8, 110u8, 116u8, 58u8, 32u8]
}

/// `"end padding: "`
pub open spec fn tag_end_padding() -> Seq<u8> {
    seq![101u8, 110u8, 100u8, 32u8, 112u8, 97u8, 100u8, 100u8, 105u8, 110u8, 103u8, 58u8, 32u8]
}

/// One indentation unit: four spaces.
pub open spec fn tag_indent() -> Seq<u8> {
    seq![32u8, 32u8, 32u8, 32u8]
}

/// The input holds exactly `tag` at position `i`.
pub open spec fn spec_match_tag(s: Seq<u8>, i: int, tag: Seq<u8>) -> bool {
    0 <= i && i + tag.len() <= s.len() && s.subrange(i, i + tag.len()) == tag
}

pub(crate) fn match_tag(s: &Vec<u8>, i: usize, tag: &Vec<u8>) -> (r: bool)
    requires
        i <= s@.len(),
    ensures
        r == spec_match_tag(s@, i as int, tag@),
{
    if s.len() - i < tag.len() {
        return false;
    }
    let sl = s.len();
    for k in 0..tag.len()
        invariant
            i + tag@.len() <= s@.len(),
            s@.len() == sl,
            forall|j: int| 0 <= j < k ==> s@[i + j] == tag@[j],
    {
        if s[i + k] != tag[k] {
            proof {
                assert(s@.subrange(i as int, i + tag@.len())[k as int] != tag@[k as int]);
            }
            return false;
        }
    }
    proof {
        assert(s@.subrange(i as int, i + tag@.len()) =~= tag@);
    }
    true
}

// Executable copies of the tags.

fn tag_type_vec() -> (r: Vec<u8>)
    ensures
        r@ == tag_type(),
{
    let mut v: Vec<u8> = Vec::new();
    v.push(116u8);
    v.push(121u8);
    v.push(112u8);
    v.push(101u8);
    v.push(58u8);
    v.push(32u8);
    assert(v@ =~= tag_type());
    v
}

fn tag_colon_sp_vec() -> (r: Vec<u8>)
    ensures
        r@ == tag_colon_sp(),
{
    let mut v: Vec<u8> = Vec::new();
    v.push(58u8);
    v.push(32u8);
    assert(v@ =~= tag_colon_sp());
    v
}

fn tag_comma_sp_vec() -> (r: Vec<u8>)
    ensures
        r@ == tag_comma_sp(),
{
    let mut v: Vec<u8> = Vec::new();
    v.push(44u8);
    v.push(32u8);
    assert(v@ =~= tag_comma_sp());
    v
}

fn tag_sp_bytes_vec() -> (r: Vec<u8>)
    ensures
        r@ == tag_sp_bytes(),
{
    let mut v: Vec<u8> = Vec::new();
    v.push(32u8);
    v.push(98u8);
    v.push(121u8);
    v.push(116u8);
    v.push(101u8);
    v.push(115u8);
    assert(v@ =~= tag_sp_bytes());
    v
}

fn tag_alignment_vec() -> (r: Vec<u8>)
    ensures
        r@ == tag_alignment(),
{
    let mut v: Vec<u8> = Vec::new();
    v.push(97u8);
    v.push(108u8);
    v.push(105u8);
    v.push(103u8);
    v.push(110u8);
    v.push(109u8);
    v.push(101u8);
    v.push(110u8);
    v.push(116u8);
    v.push(58u8);
    v.push(32u8);
    assert(v@ =~= tag_alignment());
    v
}

fn tag_offset_vec() -> (r: Vec<u8>)
    ensures
        r@ == tag_offset(),
{
    let mut v: Vec<u8> = Vec::new();
    v.push(111u8);
    v.push(102u8);
    v.push(102u8);
    v.push(115u8);
    v.push(101u8);
    v.push(116u8);
    v.push(58u8);
    v.push(32u8);
    assert(v@ =~= tag_offset());
    v
}

fn tag_field_vec() -> (r: Vec<u8>)
    ensures
        r@ == tag_field(),
{
    let mut v: Vec<u8> = Vec::new();
    v.push(102u8);
    v.push(105u8);
    v.push(101u8);
    v.push(108u8);
    v.push(100u8);
    v.push(32u8);
    assert(v@ =~= tag_field());
    v
}

fn tag_upvar_vec() -> (r: Vec<u8>)
    ensures
        r@ == tag_upvar(),
{
    let mut v: Vec<u8> = Vec::new();
    v.push(117u8);
    v.push(112u8);
    v.push(118u8);
    v.push(97u8);
    v.push(114u8);
    v.push(32u8);
    assert(v@ =~= tag_upvar());
    v
}

fn tag_local_vec() -> (r: Vec<u8>)
    ensures
        r@ == tag_local(),
{
    let mut v: Vec<u8> = Vec::new();
    v.push(108u8);
    v.push(111u8);
    v.push(99u8);
    v.push(97u8);
    v.push(108u8);
    v.push(32u8);
    assert(v@ =~= tag_local());
    v
}

fn tag_padding_vec() -> (r: Vec<u8>)
    ensures
        r@ == tag_padding(),
{
    let mut v: Vec<u8> = Vec::new();
    v.push(112u8);
    v.push(97u8);
    v.push(100u8);
    v.push(100u8);
    v.push(105u8);
    v.push(110u8);
    v.push(103u8);
    v.push(58u8);
    v.push(32u8);
    assert(v@ =~= tag_padding());
    v
}

fn tag_variant_vec() -> (r: Vec<u8>)
    ensures
        r@ == tag_variant(),
{
    let mut v: Vec<u8> = Vec::new();
    v.push(118u8);
    v.push(97u8);
    v.push(114u8);
    v.push(105u8);
    v.push(97u8);
    v.push(110u8);
    v.push(116u8);
    v.push(32u8);
    assert(v@ =~= tag_variant());
    v
}

fn tag_discriminant_vec() -> (r: Vec<u8>)
    ensures
        r@ == tag_discriminant(),
{
    let mut v: Vec<u8> = Vec::new();
    v.push(100u8);
    v.push(105u8);
    v.push(115u8);
    v.push(99u8);
    v.push(114u8);
    v.push(105u8);
    v.push(109u8);
    v.push(105u8);
    v.push(110u8);
    v.push(97u8);
    v.push(110u8);
    v.push(116u8);
    v.push(58u8);
    v.push(32u8);
    assert(v@ =~= tag_discriminant());
    v
}

fn tag_end_padding_vec() -> (r: Vec<u8>)
    ensures
        r@ == tag_end_padding(),
{
    let mut v: Vec<u8> = Vec::new();
    v.push(101u8);
    v.push(110u8);
    v.push(100u8);
    v.push(32u8);
    v.push(112u8);
    v.push(97u8);
    v.push(100u8);
    v.push(100u8);
    v.push(105u8);
    v.push(110u8);
    v.push(103u8);
    v.push(58u8);
    v.push(32u8);
    assert(v@ =~= tag_end_padding());
    v
}

fn tag_indent_vec() -> (r: Vec<u8>)
    ensures
        r@ == tag_indent(),
{
    let mut v: Vec<u8> = Vec::new();
    v.push(32u8);
    v.push(32u8);
    v.push(32u8);
    v.push(32u8);
    assert(v@ =~= tag_indent());
    v
}

// ---------------------------------------------------------------------------
// Numbers
// ---------------------------------------------------------------------------

/// An ASCII decimal digit.
pub open spec fn is_digit(b: u8) -> bool {
    48u8 <= b && b <= 57u8
}

/// The end of the digit run starting at `i`: the first position at or after
/// `i` holding no digit.
pub open spec fn spec_digit_run_end(s: Seq<u8>, i: int) -> int
    decreases s.len() - i,
{
    if i < 0 || i >= s.len() || !is_digit(s[i]) {
        i
    } else {
        spec_digit_run_end(s, i + 1)
    }
}

/// The value of the digits `s[i..j)`, most significant first.
pub open spec fn spec_digits_value(s: Seq<u8>, i: int, j: int) -> int
    decreases j - i,
{
    if i >= j {
        0
    } else {
        spec_digits_value(s, i, j - 1) * 10 + (s[j - 1] - 48u8)
    }
}

/// A decimal number: a non-empty digit run whose value fits in `usize`.
pub open spec fn spec_number(s: Seq<u8>, i: int) -> Option<(int, usize)> {
    let j = spec_digit_run_end(s, i);
    if j == i || spec_digits_value(s, i, j) > usize::MAX {
        None
    } else {
        Some((j, spec_digits_value(s, i, j) as usize))
    }
}

proof fn lemma_digit_run_end_bounds(s: Seq<u8>, i: int)
    requires
        0 <= i <= s.len(),
    ensures
        i <= spec_digit_run_end(s, i) <= s.len(),
        forall|k: int| i <= k < spec_digit_run_end(s, i) ==> is_digit(s[k]),
        spec_digit_run_end(s, i) < s.len() ==> !is_digit(s[spec_digit_run_end(s, i)]),
    decreases s.len() - i,
{
    if i < s.len() && is_digit(s[i]) {
        lemma_digit_run_end_bounds(s, i + 1);
    }
}

proof fn lemma_digits_value_nonneg(s: Seq<u8>, i: int, j: int)
    requires
        forall|k: int| i <= k < j ==> is_digit(s[k]),
        0 <= i,
        j <= s.len(),
    ensures
        spec_digits_value(s, i, j) >= 0,
    decreases j - i,
{
    if i < j {
        lemma_digits_value_nonneg(s, i, j - 1);
    }
}

/// Reads the digit run at `i` and its value, when it fits.
fn parse_number(s: &Vec<u8>, i: usize) -> (r: Option<(usize, usize)>)
    requires
        i <= s@.len(),
    ensures
        match r {
            Some((j, v)) => spec_number(s@, i as int) == Some((j as int, v)) && i < j <= s@.len(),
            None => spec_number(s@, i as int) is None,
        },
{
    let ghost e = spec_digit_run_end(s@, i as int);
    proof {
        lemma_digit_run_end_bounds(s@, i as int);
    }
    let mut j: usize = i;
    while j < s.len() && s[j] >= 48u8 && s[j] <= 57u8
        invariant
            i <= j <= s@.len(),
            e == spec_digit_run_end(s@, i as int),
            i <= e <= s@.len(),
            forall|k: int| i <= k < e ==> is_digit(s@[k]),
            e < s@.len() ==> !is_digit(s@[e]),
            j <= e,
            spec_digit_run_end(s@, j as int) == e,
        decreases s@.len() - j,
    {
        proof {
            assert(is_digit(s@[j as int]));
            assert(spec_digit_run_end(s@, j as int) == spec_digit_run_end(s@, j + 1));
        }
        j = j + 1;
    }
    proof {
        assert(j == e);
    }
    if j == i {
        return None;
    }
    // Accumulate the value, watching for overflow.
    let mut v: usize = 0;
    let mut over = false;
    let mut k: usize = i;
    while k < j
        invariant
            i <= k <= j <= s@.len(),
            forall|m: int| i <= m < j ==> is_digit(s@[m]),
            !over ==> v == spec_digits_value(s@, i as int, k as int),
            over ==> spec_digits_value(s@, i as int, k as int) > usize::MAX,
        decreases j - k,
    {
        let d = s[k] - 48u8;
        proof {
            lemma_digits_value_nonneg(s@, i as int, k as int);
        }
        if over {
            proof {
                let prev = spec_digits_value(s@, i as int, k as int);
                assert(spec_digits_value(s@, i as int, k + 1) == prev * 10 + (s@[k as int]
                    - 48u8));
                assert(prev * 10 >= prev) by (nonlinear_arith)
                    requires
                        prev >= 0,
                ;
            }
        } else {
            let limit = (usize::MAX - d as usize) / 10;
            if v > limit {
                proof {
                    let dd = (s@[k as int] - 48u8) as int;
                    assert(v * 10 + dd > usize::MAX) by (nonlinear_arith)
                        requires
                            v > (usize::MAX - dd) / 10,
                            0 <= dd <= 9,
                            v >= 0,
                    ;
                }
                over = true;
            } else {
                proof {
                    let dd = (s@[k as int] - 48u8) as int;
                    assert(v * 10 + dd <= usize::MAX) by (nonlinear_arith)
                        requires
                            v <= (usize::MAX - dd) / 10,
                            0 <= dd <= 9,
                            v >= 0,
                    ;
                }
                v = v * 10 + d as usize;
            }
        }
        k = k + 1;
    }
    if over {
        None
    } else {
        Some((j, v))
    }
}

// ---------------------------------------------------------------------------
// Sizes, names, indentation
// ---------------------------------------------------------------------------

/// `<N> bytes`
pub open spec fn spec_bytes(s: Seq<u8>, i: int) -> Option<(int, usize)> {
    match spec_number(s, i) {
        None => None,
        Some((j, v)) => if spec_match_tag(s, j, tag_sp_bytes()) {
            Some((j + 6, v))
        } else {
            None
        },
    }
}

/// Reads `<N> bytes`.
fn bytes(s: &Vec<u8>, i: usize) -> (r: Option<(usize, usize)>)
    requires
        i <= s@.len(),
    ensures
        match r {
            Some((j, v)) => spec_bytes(s@, i as int) == Some((j as int, v)) && i < j <= s@.len(),
            None => spec_bytes(s@, i as int) is None,
        },
{
    let _sl = s.len();
    match parse_number(s, i) {
        None => None,
        Some((j, v)) => {
            let t = tag_sp_bytes_vec();
            if match_tag(s, j, &t) {
                let sl = s.len();
                assert(j + 6 <= sl);
                Some((j + 6, v))
            } else {
                None
            }
        },
    }
}

/// The end of the run of bytes other than `b` starting at `i`.
pub open spec fn spec_run_end_not(s: Seq<u8>, i: int, b: u8) -> int
    decreases s.len() - i,
{
    if i < 0 || i >= s.len() || s[i] == b {
        i
    } else {
        spec_run_end_not(s, i + 1, b)
    }
}

proof fn lemma_run_end_not_bounds(s: Seq<u8>, i: int, b: u8)
    requires
        0 <= i <= s.len(),
    ensures
        i <= spec_run_end_not(s, i, b) <= s.len(),
        forall|k: int| i <= k < spec_run_end_not(s, i, b) ==> s[k] != b,
        spec_run_end_not(s, i, b) < s.len() ==> s[spec_run_end_not(s, i, b)] == b,
    decreases s.len() - i,
{
    if i < s.len() && s[i] != b {
        lemma_run_end_not_bounds(s, i + 1, b);
    }
}

pub(crate) fn run_end_not(s: &Vec<u8>, i: usize, b: u8) -> (j: usize)
    requires
        i <= s@.len(),
    ensures
        j == spec_run_end_not(s@, i as int, b),
        i <= j <= s@.len(),
        forall|k: int| i <= k < j ==> s@[k] != b,
        j < s@.len() ==> s@[j as int] == b,
{
    proof {
        lemma_run_end_not_bounds(s@, i as int, b);
    }
    let ghost e = spec_run_end_not(s@, i as int, b);
    let mut j: usize = i;
    while j < s.len() && s[j] != b
        invariant
            i <= j <= s@.len(),
            e == spec_run_end_not(s@, i as int, b),
            i <= e <= s@.len(),
            forall|k: int| i <= k < e ==> s@[k] != b,
            e < s@.len() ==> s@[e] == b,
            j <= e,
            spec_run_end_not(s@, j as int, b) == e,
        decreases s@.len() - j,
    {
        proof {
            assert(spec_run_end_not(s@, j as int, b) == spec_run_end_not(s@, j + 1, b));
        }
        j = j + 1;
    }
    proof {
        assert(j == e);
    }
    j
}

/// A backtick-delimited name: `` `…` `` with a non-empty inside free of
/// backticks.
pub open spec fn spec_name(s: Seq<u8>, i: int) -> Option<(int, Seq<u8>)> {
    if 0 <= i < s.len() && s[i] == 96u8 {
        let j = spec_run_end_not(s, i + 1, 96u8);
        if j == i + 1 || j >= s.len() {
            None
        } else {
            Some((j + 1, s.subrange(i + 1, j)))
        }
    } else {
        None
    }
}

/// Reads a backtick-delimited name.
fn name(s: &Vec<u8>, i: usize) -> (r: Option<(usize, Vec<u8>)>)
    requires
        i <= s@.len(),
    ensures
        match r {
            Some((j, nm)) => spec_name(s@, i as int) == Some((j as int, nm@)) && i < j
                <= s@.len(),
            None => spec_name(s@, i as int) is None,
        },
{
    let _sl = s.len();
    if i >= s.len() || s[i] != 96u8 {
        return None;
    }
    let j = run_end_not(s, i + 1, 96u8);
    if j == i + 1 || j >= s.len() {
        return None;
    }
    let mut nm: Vec<u8> = Vec::new();
    let mut k: usize = i + 1;
    while k < j
        invariant
            i + 1 <= k <= j <= s@.len(),
            nm@ =~= s@.subrange(i + 1, k as int),
        decreases j - k,
    {
        let c = s[k];
        nm.push(c);
        proof {
            assert(nm@ =~= s@.subrange(i + 1, k + 1));
        }
        k = k + 1;
    }
    Some((j + 1, nm))
}

/// The number of four-space units at `i`.
pub open spec fn spec_indent_count(s: Seq<u8>, i: int) -> int
    decreases s.len() - i,
{
    if spec_match_tag(s, i, tag_indent()) {
        1 + spec_indent_count(s, i + 4)
    } else {
        0
    }
}

/// A newline followed by exactly `level` four-space units (measured greedily:
/// a deeper or shallower indentation does not match).
pub open spec fn spec_indent(s: Seq<u8>, i: int, level: int) -> Option<int> {
    if 0 <= i < s.len() && s[i] == 10u8 {
        if spec_indent_count(s, i + 1) == level {
            Some(i + 1 + 4 * level)
        } else {
            None
        }
    } else {
        None
    }
}

proof fn lemma_indent_count_bounds(s: Seq<u8>, i: int)
    requires
        0 <= i <= s.len(),
    ensures
        spec_indent_count(s, i) >= 0,
        i + 4 * spec_indent_count(s, i) <= s.len(),
    decreases s.len() - i,
{
    if spec_match_tag(s, i, tag_indent()) {
        lemma_indent_count_bounds(s, i + 4);
    }
}

/// Reads a newline followed by exactly `level` indentation units.
pub fn indent(s: &Vec<u8>, i: usize, level: usize) -> (r: Option<usize>)
    requires
        i <= s@.len(),
    ensures
        match r {
            Some(j) => spec_indent(s@, i as int, level as int) == Some(j as int) && i < j
                <= s@.len(),
            None => spec_indent(s@, i as int, level as int) is None,
        },
{
    if i >= s.len() || s[i] != 10u8 {
        return None;
    }
    let four = tag_indent_vec();
    let mut count: usize = 0;
    let mut p: usize = i + 1;
    proof {
        lemma_indent_count_bounds(s@, i + 1);
    }
    loop
        invariant_except_break
            i + 1 <= p <= s@.len(),
            s@.len() <= usize::MAX,
            four@ == tag_indent(),
            p == i + 1 + 4 * count,
            spec_indent_count(s@, i + 1) == count + spec_indent_count(s@, p as int),
            spec_indent_count(s@, p as int) >= 0,
            i + 1 + 4 * spec_indent_count(s@, i + 1) <= s@.len(),
        ensures
            i + 1 <= p <= s@.len(),
            p == i + 1 + 4 * count,
            count == spec_indent_count(s@, i + 1),
        decreases s@.len() - p,
    {
        let m = match_tag(s, p, &four);
        if !m {
            proof {
                assert(spec_indent_count(s@, p as int) == 0);
            }
            break;
        }
        proof {
            lemma_indent_count_bounds(s@, p + 4);
        }
        p = p + 4;
        count = count + 1;
    }
    if count == level {
        Some(p)
    } else {
        None
    }
}

// ---------------------------------------------------------------------------
// Attributes of a field line
// ---------------------------------------------------------------------------

/// `alignment: <N> bytes`
pub open spec fn spec_alignment(s: Seq<u8>, i: int) -> Option<(int, usize)> {
    if spec_match_tag(s, i, tag_alignment()) {
        spec_bytes(s, i + 11)
    } else {
        None
    }
}

/// Reads `alignment: <N> bytes`.
fn alignment(s: &Vec<u8>, i: usize) -> (r: Option<(usize, usize)>)
    requires
        i <= s@.len(),
    ensures
        match r {
            Some((j, v)) => spec_alignment(s@, i as int) == Some((j as int, v)) && i < j
                <= s@.len(),
            None => spec_alignment(s@, i as int) is None,
        },
{
    let _sl = s.len();
    let t = tag_alignment_vec();
    if match_tag(s, i, &t) {
        bytes(s, i + 11)
    } else {
        None
    }
}

/// `offset: <N> bytes`
pub open spec fn spec_offset(s: Seq<u8>, i: int) -> Option<(int, usize)> {
    if spec_match_tag(s, i, tag_offset()) {
        spec_bytes(s, i + 8)
    } else {
        None
    }
}

/// Reads `offset: <N> bytes`.
fn offset(s: &Vec<u8>, i: usize) -> (r: Option<(usize, usize)>)
    requires
        i <= s@.len(),
    ensures
        match r {
            Some((j, v)) => spec_offset(s@, i as int) == Some((j as int, v)) && i < j <= s@.len(),
            None => spec_offset(s@, i as int) is None,
        },
{
    let _sl = s.len();
    let t = tag_offset_vec();
    if match_tag(s, i, &t) {
        bytes(s, i + 8)
    } else {
        None
    }
}

/// `type: <rest of line>` — a non-empty run up to the next newline.
pub open spec fn spec_local_type(s: Seq<u8>, i: int) -> Option<(int, Seq<u8>)> {
    if spec_match_tag(s, i, tag_type()) {
        let j = spec_run_end_not(s, i + 6, 10u8);
        if j == i + 6 {
            None
        } else {
            Some((j, s.subrange(i + 6, j)))
        }
    } else {
        None
    }
}

/// Reads a field's textual type annotation.
fn local_type(s: &Vec<u8>, i: usize) -> (r: Option<(usize, Vec<u8>)>)
    requires
        i <= s@.len(),
    ensures
        match r {
            Some((j, t)) => spec_local_type(s@, i as int) == Some((j as int, t@)) && i < j
                <= s@.len(),
            None => spec_local_type(s@, i as int) is None,
        },
{
    let _sl = s.len();
    let tg = tag_type_vec();
    if !match_tag(s, i, &tg) {
        return None;
    }
    let j = run_end_not(s, i + 6, 10u8);
    if j == i + 6 {
        return None;
    }
    let mut t: Vec<u8> = Vec::new();
    let mut k: usize = i + 6;
    while k < j
        invariant
            i + 6 <= k <= j <= s@.len(),
            t@ =~= s@.subrange(i + 6, k as int),
        decreases j - k,
    {
        let c = s[k];
        t.push(c);
        proof {
            assert(t@ =~= s@.subrange(i + 6, k + 1));
        }
        k = k + 1;
    }
    Some((j, t))
}

// ---------------------------------------------------------------------------
// Field and padding lines
// ---------------------------------------------------------------------------

/// A field name with its leading dots removed.
pub open spec fn spec_strip_dots(nm: Seq<u8>) -> Seq<u8>
    decreases nm.len(),
{
    if nm.len() > 0 && nm[0] == 46u8 {
        spec_strip_dots(nm.drop_first())
    } else {
        nm
    }
}

proof fn lemma_strip_dots_skip(nm: Seq<u8>, d: int)
    requires
        0 <= d <= nm.len(),
        forall|k: int| 0 <= k < d ==> nm[k] == 46u8,
        d < nm.len() ==> nm[d] != 46u8,
    ensures
        spec_strip_dots(nm) == nm.skip(d),
    decreases d,
{
    if d == 0 {
        assert(nm.skip(0) =~= nm);
    } else {
        assert(nm[0] == 46u8);
        lemma_strip_dots_skip(nm.drop_first(), d - 1);
        assert(nm.drop_first().skip(d - 1) =~= nm.skip(d));
    }
}

/// Removes the leading dots of a field name.
fn strip_dots(nm: Vec<u8>) -> (r: Vec<u8>)
    ensures
        r@ == spec_strip_dots(nm@),
{
    let mut d: usize = 0;
    while d < nm.len() && nm[d] == 46u8
        invariant
            d <= nm@.len(),
            forall|k: int| 0 <= k < d ==> nm@[k] == 46u8,
        decreases nm@.len() - d,
    {
        d = d + 1;
    }
    proof {
        lemma_strip_dots_skip(nm@, d as int);
    }
    let mut r: Vec<u8> = Vec::new();
    let mut k: usize = d;
    while k < nm.len()
        invariant
            d <= k <= nm@.len(),
            r@ =~= nm@.subrange(d as int, k as int),
        decreases nm@.len() - k,
    {
        let c = nm[k];
        r.push(c);
        proof {
            assert(r@ =~= nm@.subrange(d as int, k + 1));
        }
        k = k + 1;
    }
    proof {
        assert(nm@.subrange(d as int, nm@.len() as int) =~= nm@.skip(d as int));
    }
    r
}

/// `, offset: <N> bytes`, optionally.
pub open spec fn spec_opt_offset(s: Seq<u8>, i: int) -> (int, Option<usize>) {
    if spec_match_tag(s, i, tag_comma_sp()) {
        match spec_offset(s, i + 2) {
            Some((j, v)) => (j, Some(v)),
            None => (i, None),
        }
    } else {
        (i, None)
    }
}

/// `, alignment: <N> bytes`, optionally.
pub open spec fn spec_opt_alignment(s: Seq<u8>, i: int) -> (int, Option<usize>) {
    if spec_match_tag(s, i, tag_comma_sp()) {
        match spec_alignment(s, i + 2) {
            Some((j, v)) => (j, Some(v)),
            None => (i, None),
        }
    } else {
        (i, None)
    }
}

/// `, type: <rest of line>`, optionally.
pub open spec fn spec_opt_local_type(s: Seq<u8>, i: int) -> (int, Option<Seq<u8>>) {
    if spec_match_tag(s, i, tag_comma_sp()) {
        match spec_local_type(s, i + 2) {
            Some((j, t)) => (j, Some(t)),
            None => (i, None),
        }
    } else {
        (i, None)
    }
}

/// A field line: a leading keyword choosing the field kind, a backtick name
/// (leading dots stripped), a size, and optional offset, alignment and type
/// attributes in that order.
pub open spec fn spec_field(s: Seq<u8>, i: int) -> Option<(int, FieldV)> {
    let kind = if spec_match_tag(s, i, tag_field()) {
        Some(FieldKind::AdtField)
    } else if spec_match_tag(s, i, tag_upvar()) {
        Some(FieldKind::Upvar)
    } else if spec_match_tag(s, i, tag_local()) {
        Some(FieldKind::GeneratorLocal)
    } else {
        None
    };
    match kind {
        None => None,
        Some(k) => match spec_name(s, i + 6) {
            None => None,
            Some((p1, nm)) => if spec_match_tag(s, p1, tag_colon_sp()) {
                match spec_bytes(s, p1 + 2) {
                    None => None,
                    Some((p2, size)) => {
                        let (p3, off) = spec_opt_offset(s, p2);
                        let (p4, al) = spec_opt_alignment(s, p3);
                        let (p5, lt) = spec_opt_local_type(s, p4);
                        Some(
                            (
                                p5,
                                FieldV {
                                    kind: k,
                                    name: spec_strip_dots(nm),
                                    size,
                                    align: al,
                                    offset: off,
                                    local_type: lt,
                                },
                            ),
                        )
                    },
                }
            } else {
                None
            },
        },
    }
}

/// Reads one field line.
fn field(s: &Vec<u8>, i: usize) -> (r: Option<(usize, Field)>)
    requires
        i <= s@.len(),
    ensures
        match r {
            Some((j, f)) => spec_field(s@, i as int) == Some((j as int, f.deep_view())) && i < j
                <= s@.len(),
            None => spec_field(s@, i as int) is None,
        },
{
    let _sl = s.len();
    let tf = tag_field_vec();
    let tu = tag_upvar_vec();
    let tl = tag_local_vec();
    let kind: FieldKind;
    if match_tag(s, i, &tf) {
        kind = FieldKind::AdtField;
    } else if match_tag(s, i, &tu) {
        kind = FieldKind::Upvar;
    } else if match_tag(s, i, &tl) {
        kind = FieldKind::GeneratorLocal;
    } else {
        return None;
    }
    let (p1, nm) = match name(s, i + 6) {
        Some(x) => x,
        None => {
            return None;
        },
    };
    let tc = tag_colon_sp_vec();
    if !match_tag(s, p1, &tc) {
        return None;
    }
    let (p2, size) = match bytes(s, p1 + 2) {
        Some(x) => x,
        None => {
            return None;
        },
    };
    let tcm = tag_comma_sp_vec();
    let mut pos = p2;
    let mut off: Option<usize> = None;
    if match_tag(s, pos, &tcm) {
        if let Some((j, v)) = offset(s, pos + 2) {
            pos = j;
            off = Some(v);
        }
    }
    proof {
        assert((pos as int, off) == spec_opt_offset(s@, p2 as int));
    }
    let ghost p3 = pos as int;
    let mut al: Option<usize> = None;
    if match_tag(s, pos, &tcm) {
        if let Some((j, v)) = alignment(s, pos + 2) {
            pos = j;
            al = Some(v);
        }
    }
    proof {
        assert((pos as int, al) == spec_opt_alignment(s@, p3));
    }
    let ghost p4 = pos as int;
    let mut lt: Option<Vec<u8>> = None;
    if match_tag(s, pos, &tcm) {
        if let Some((j, t)) = local_type(s, pos + 2) {
            pos = j;
            lt = Some(t);
        }
    }
    proof {
        assert(spec_opt_local_type(s@, p4).0 == pos as int);
        match &lt {
            Some(t) => assert(spec_opt_local_type(s@, p4).1 == Some(t@)),
            None => assert(spec_opt_local_type(s@, p4).1 is None),
        }
    }
    let f = Field { kind, name: strip_dots(nm), size, align: al, offset: off, local_type: lt };
    Some((pos, f))
}

/// A padding line: `padding: <N> bytes`.
pub open spec fn spec_padding(s: Seq<u8>, i: int) -> Option<(int, usize)> {
    if spec_match_tag(s, i, tag_padding()) {
        spec_bytes(s, i + 9)
    } else {
        None
    }
}

/// Reads one padding line.
fn padding(s: &Vec<u8>, i: usize) -> (r: Option<(usize, usize)>)
    requires
        i <= s@.len(),
    ensures
        match r {
            Some((j, v)) => spec_padding(s@, i as int) == Some((j as int, v)) && i < j
                <= s@.len(),
            None => spec_padding(s@, i as int) is None,
        },
{
    let _sl = s.len();
    let t = tag_padding_vec();
    if match_tag(s, i, &t) {
        bytes(s, i + 9)
    } else {
        None
    }
}

/// A field-or-padding line at the given indentation level.
pub open spec fn spec_field_or_padding(s: Seq<u8>, i: int, level: int) -> Option<
    (int, FieldOrPaddingV),
> {
    match spec_indent(s, i, level) {
        None => None,
        Some(j) => match spec_field(s, j) {
            Some((k, f)) => Some((k, FieldOrPaddingV::Field(f))),
            None => match spec_padding(s, j) {
                Some((k, p)) => Some((k, FieldOrPaddingV::Padding(p))),
                None => None,
            },
        },
    }
}

/// Reads one field-or-padding line at the given level.
fn field_or_padding(s: &Vec<u8>, i: usize, level: usize) -> (r: Option<(usize, FieldOrPadding)>)
    requires
        i <= s@.len(),
    ensures
        match r {
            Some((j, it)) => spec_field_or_padding(s@, i as int, level as int) == Some(
                (j as int, it.deep_view()),
            ) && i < j <= s@.len(),
            None => spec_field_or_padding(s@, i as int, level as int) is None,
        },
{
    let j = match indent(s, i, level) {
        Some(j) => j,
        None => {
            return None;
        },
    };
    match field(s, j) {
        Some((k, f)) => Some((k, FieldOrPadding::Field(f))),
        None => match padding(s, j) {
            Some((k, p)) => Some((k, FieldOrPadding::Padding(p))),
            None => None,
        },
    }
}

/// The greedy run of field-or-padding lines at the given level.
pub open spec fn spec_item_list(s: Seq<u8>, i: int, level: int) -> (int, Seq<FieldOrPaddingV>)
    decreases s.len() - i,
{
    match spec_field_or_padding(s, i, level) {
        Some((j, it)) => if i < j <= s.len() {
            let (k, rest) = spec_item_list(s, j, level);
            (k, seq![it] + rest)
        } else {
            (i, Seq::empty())
        },
        None => (i, Seq::empty()),
    }
}

/// Reads the run of field-or-padding lines at the given level.
fn item_list(s: &Vec<u8>, i: usize, level: usize) -> (r: (usize, Vec<FieldOrPadding>))
    requires
        i <= s@.len(),
    ensures
        ({
            let (k, its) = spec_item_list(s@, i as int, level as int);
            r.0 == k && r.1.deep_view() == its && i <= r.0 <= s@.len()
        }),
{
    let ghost full = spec_item_list(s@, i as int, level as int);
    let mut pos = i;
    let mut acc: Vec<FieldOrPadding> = Vec::new();
    loop
        invariant_except_break
            i <= pos <= s@.len(),
            level <= usize::MAX,
            ({
                let (k, rest) = spec_item_list(s@, pos as int, level as int);
                k == full.0 && acc.deep_view() + rest =~= full.1
            }),
        ensures
            i <= pos <= s@.len(),
            pos == full.0,
            acc.deep_view() =~= full.1,
        decreases s@.len() - pos,
    {
        let r = field_or_padding(s, pos, level);
        match r {
            None => {
                proof {
                    let (k, rest) = spec_item_list(s@, pos as int, level as int);
                    assert(rest =~= Seq::<FieldOrPaddingV>::empty());
                    assert(acc.deep_view() + rest =~= acc.deep_view());
                }
                break;
            },
            Some((j, it)) => {
                let ghost accpre = acc.deep_view();
                let ghost accprev: Seq<FieldOrPadding> = acc@;
                let ghost itv = it.deep_view();
                acc.push(it);
                proof {
                    crate::schema::lemma_vec_deep_view(&acc);
                    crate::schema::lemma_deep_seq_push(accprev, acc@.last());
                    assert(accpre =~= crate::schema::deep_seq(accprev));
                    assert(acc.deep_view() =~= accpre.push(itv));
                    let (k2, rest2) = spec_item_list(s@, j as int, level as int);
                    assert(spec_item_list(s@, pos as int, level as int) == (
                        k2,
                        seq![itv] + rest2,
                    ));
                    assert(acc.deep_view() + rest2 =~= accpre + (seq![itv] + rest2));
                }
                pos = j;
            },
        }
    }
    (pos, acc)
}

// ---------------------------------------------------------------------------
// Bodies: struct, enum variants, enum
// ---------------------------------------------------------------------------

/// A struct body: one or more level-1 item lines.
pub open spec fn spec_struct_type(s: Seq<u8>, i: int) -> Option<(int, StructTypeV)> {
    let (j, items) = spec_item_list(s, i, 1);
    if items.len() == 0 {
        None
    } else {
        Some((j, StructTypeV { items }))
    }
}

/// Reads a struct body.
fn struct_type(s: &Vec<u8>, i: usize) -> (r: Option<(usize, StructType)>)
    requires
        i <= s@.len(),
    ensures
        match r {
            Some((j, st)) => spec_struct_type(s@, i as int) == Some((j as int, st.deep_view()))
                && i <= j <= s@.len(),
            None => spec_struct_type(s@, i as int) is None,
        },
{
    let (j, items) = item_list(s, i, 1);
    if items.len() == 0 {
        proof {
            assert(items.deep_view().len() == 0);
        }
        None
    } else {
        proof {
            assert(items.deep_view().len() > 0);
        }
        Some((j, StructType { items }))
    }
}

/// A variant block: a level-1 `variant` header followed by level-2 items.
pub open spec fn spec_enum_variant(s: Seq<u8>, i: int) -> Option<(int, EnumVariantV)> {
    match spec_indent(s, i, 1) {
        None => None,
        Some(p) => if spec_match_tag(s, p, tag_variant()) {
            match spec_name(s, p + 8) {
                None => None,
                Some((p1, nm)) => if spec_match_tag(s, p1, tag_colon_sp()) {
                    match spec_bytes(s, p1 + 2) {
                        None => None,
                        Some((p2, size)) => {
                            let (p3, items) = spec_item_list(s, p2, 2);
                            Some((p3, EnumVariantV { name: nm, size, items }))
                        },
                    }
                } else {
                    None
                },
            }
        } else {
            None
        },
    }
}

/// Reads one variant block.
fn enum_variant(s: &Vec<u8>, i: usize) -> (r: Option<(usize, EnumVariant)>)
    requires
        i <= s@.len(),
    ensures
        match r {
            Some((j, v)) => spec_enum_variant(s@, i as int) == Some((j as int, v.deep_view()))
                && i < j <= s@.len(),
            None => spec_enum_variant(s@, i as int) is None,
        },
{
    let _sl = s.len();
    let p = match indent(s, i, 1) {
        Some(p) => p,
        None => {
            return None;
        },
    };
    let tv = tag_variant_vec();
    if !match_tag(s, p, &tv) {
        return None;
    }
    let (p1, nm) = match name(s, p + 8) {
        Some(x) => x,
        None => {
            return None;
        },
    };
    let tc = tag_colon_sp_vec();
    if !match_tag(s, p1, &tc) {
        return None;
    }
    let (p2, size) = match bytes(s, p1 + 2) {
        Some(x) => x,
        None => {
            return None;
        },
    };
    let (p3, items) = item_list(s, p2, 2);
    Some((p3, EnumVariant { name: nm, size, items }))
}

/// The greedy run of variant blocks.
pub open spec fn spec_variant_list(s: Seq<u8>, i: int) -> (int, Seq<EnumVariantV>)
    decreases s.len() - i,
{
    match spec_enum_variant(s, i) {
        Some((j, v)) => if i < j <= s.len() {
            let (k, rest) = spec_variant_list(s, j);
            (k, seq![v] + rest)
        } else {
            (i, Seq::empty())
        },
        None => (i, Seq::empty()),
    }
}

/// Reads the run of variant blocks.
fn variant_list(s: &Vec<u8>, i: usize) -> (r: (usize, Vec<EnumVariant>))
    requires
        i <= s@.len(),
    ensures
        ({
            let (k, vs) = spec_variant_list(s@, i as int);
            r.0 == k && r.1.deep_view() == vs && i <= r.0 <= s@.len()
        }),
{
    let ghost full = spec_variant_list(s@, i as int);
    let mut pos = i;
    let mut acc: Vec<EnumVariant> = Vec::new();
    loop
        invariant_except_break
            i <= pos <= s@.len(),
            ({
                let (k, rest) = spec_variant_list(s@, pos as int);
                k == full.0 && acc.deep_view() + rest =~= full.1
            }),
        ensures
            i <= pos <= s@.len(),
            pos == full.0,
            acc.deep_view() =~= full.1,
        decreases s@.len() - pos,
    {
        let r = enum_variant(s, pos);
        match r {
            None => {
                proof {
                    let (k, rest) = spec_variant_list(s@, pos as int);
                    assert(rest =~= Seq::<EnumVariantV>::empty());
                    assert(acc.deep_view() + rest =~= acc.deep_view());
                }
                break;
            },
            Some((j, v)) => {
                let ghost accpre = acc.deep_view();
                let ghost accprev: Seq<EnumVariant> = acc@;
                let ghost vv = v.deep_view();
                acc.push(v);
                proof {
                    crate::schema::lemma_vec_deep_view(&acc);
                    crate::schema::lemma_deep_seq_push(accprev, acc@.last());
                    assert(accpre =~= crate::schema::deep_seq(accprev));
                    assert(acc.deep_view() =~= accpre.push(vv));
                    let (k2, rest2) = spec_variant_list(s@, j as int);
                    assert(spec_variant_list(s@, pos as int) == (k2, seq![vv] + rest2));
                    assert(acc.deep_view() + rest2 =~= accpre + (seq![vv] + rest2));
                }
                pos = j;
            },
        }
    }
    (pos, acc)
}

/// An optional level-1 `discriminant: <N> bytes` line.
pub open spec fn spec_opt_discriminant(s: Seq<u8>, i: int) -> (int, Option<usize>) {
    match spec_indent(s, i, 1) {
        Some(p) => if spec_match_tag(s, p, tag_discriminant()) {
            match spec_bytes(s, p + 14) {
                Some((j, v)) => (j, Some(v)),
                None => (i, None),
            }
        } else {
            (i, None)
        },
        None => (i, None),
    }
}

/// An enum body: an optional discriminant line, then any number of variant
/// blocks.  It never fails; a bare type header parses as an empty enum.
pub open spec fn spec_enum_type(s: Seq<u8>, i: int) -> (int, EnumTypeV) {
    let (p, disc) = spec_opt_discriminant(s, i);
    let (q, vars) = spec_variant_list(s, p);
    (q, EnumTypeV { discriminant_size: disc, variants: vars })
}

/// Reads an enum body.
fn enum_type(s: &Vec<u8>, i: usize) -> (r: (usize, EnumType))
    requires
        i <= s@.len(),
    ensures
        ({
            let (k, e) = spec_enum_type(s@, i as int);
            r.0 == k && r.1.deep_view() == e && i <= r.0 <= s@.len()
        }),
{
    let _sl = s.len();
    let td = tag_discriminant_vec();
    let mut pos = i;
    let mut disc: Option<usize> = None;
    if let Some(p) = indent(s, i, 1) {
        if match_tag(s, p, &td) {
            if let Some((j, v)) = bytes(s, p + 14) {
                pos = j;
                disc = Some(v);
            }
        }
    }
    proof {
        assert((pos as int, disc) == spec_opt_discriminant(s@, i as int));
    }
    let (q, vars) = variant_list(s, pos);
    proof {
        assert(EnumType { discriminant_size: disc, variants: vars }.deep_view()
            == spec_enum_type(s@, i as int).1);
    }
    (q, EnumType { discriminant_size: disc, variants: vars })
}

// ---------------------------------------------------------------------------
// Whole type records
// ---------------------------------------------------------------------------

/// An optional level-1 `end padding: <N> bytes` line.
pub open spec fn spec_opt_end_padding(s: Seq<u8>, i: int) -> (int, Option<usize>) {
    match spec_indent(s, i, 1) {
        Some(p) => if spec_match_tag(s, p, tag_end_padding()) {
            match spec_bytes(s, p + 13) {
                Some((j, v)) => (j, Some(v)),
                None => (i, None),
            }
        } else {
            (i, None)
        },
        None => (i, None),
    }
}

/// One type record: the level-0 header line, a struct body if it has item
/// lines, else an enum body, then an optional end-padding line.
pub open spec fn spec_type_(s: Seq<u8>, i: int) -> Option<(int, TypeV)> {
    if spec_match_tag(s, i, tag_type()) {
        match spec_name(s, i + 6) {
            None => None,
            Some((p1, nm)) => if spec_match_tag(s, p1, tag_colon_sp()) {
                match spec_bytes(s, p1 + 2) {
                    None => None,
                    Some((p2, size)) => if spec_match_tag(s, p2, tag_comma_sp()) {
                        match spec_alignment(s, p2 + 2) {
                            None => None,
                            Some((p3, align)) => {
                                let (p4, kind) = match spec_struct_type(s, p3) {
                                    Some((q, st)) => (q, TypeKindV::Struct(st)),
                                    None => {
                                        let (q, e) = spec_enum_type(s, p3);
                                        (q, TypeKindV::Enum(e))
                                    },
                                };
                                let (p5, endp) = spec_opt_end_padding(s, p4);
                                Some(
                                    (
                                        p5,
                                        TypeV {
                                            name: nm,
                                            size,
                                            align,
                                            kind,
                                            end_padding: endp,
                                        },
                                    ),
                                )
                            },
                        }
                    } else {
                        None
                    },
                }
            } else {
                None
            },
        }
    } else {
        None
    }
}

/// Reads one type record.
fn type_(s: &Vec<u8>, i: usize) -> (r: Option<(usize, Type)>)
    requires
        i <= s@.len(),
    ensures
        match r {
            Some((j, t)) => spec_type_(s@, i as int) == Some((j as int, t.deep_view())) && i < j
                <= s@.len(),
            None => spec_type_(s@, i as int) is None,
        },
{
    let _sl = s.len();
    let tt = tag_type_vec();
    if !match_tag(s, i, &tt) {
        return None;
    }
    let (p1, nm) = match name(s, i + 6) {
        Some(x) => x,
        None => {
            return None;
        },
    };
    let tc = tag_colon_sp_vec();
    if !match_tag(s, p1, &tc) {
        return None;
    }
    let (p2, size) = match bytes(s, p1 + 2) {
        Some(x) => x,
        None => {
            return None;
        },
    };
    let tcm = tag_comma_sp_vec();
    if !match_tag(s, p2, &tcm) {
        return None;
    }
    let (p3, align) = match alignment(s, p2 + 2) {
        Some(x) => x,
        None => {
            return None;
        },
    };
    let (p4, kind) = match struct_type(s, p3) {
        Some((q, st)) => (q, TypeKind::Struct(st)),
        None => {
            let (q, e) = enum_type(s, p3);
            (q, TypeKind::Enum(e))
        },
    };
    let te = tag_end_padding_vec();
    let mut pos = p4;
    let mut endp: Option<usize> = None;
    if let Some(p) = indent(s, pos, 1) {
        if match_tag(s, p, &te) {
            if let Some((j, v)) = bytes(s, p + 13) {
                pos = j;
                endp = Some(v);
            }
        }
    }
    proof {
        assert((pos as int, endp) == spec_opt_end_padding(s@, p4 as int));
    }
    let t = Type { name: nm, size, align, kind, end_padding: endp };
    Some((pos, t))
}

/// The greedy run of type records, each header optionally preceded by the
/// newline that ended the previous line.
pub open spec fn spec_types(s: Seq<u8>, i: int) -> (int, Seq<TypeV>)
    decreases s.len() - i,
{
    let i2 = if 0 <= i < s.len() && s[i] == 10u8 {
        i + 1
    } else {
        i
    };
    match spec_type_(s, i2) {
        Some((j, t)) => if i < j <= s.len() {
            let (k, rest) = spec_types(s, j);
            (k, seq![t] + rest)
        } else {
            (i, Seq::empty())
        },
        None => (i, Seq::empty()),
    }
}

/// Reads the run of type records.
fn types(s: &Vec<u8>, i: usize) -> (r: (usize, Vec<Type>))
    requires
        i <= s@.len(),
    ensures
        ({
            let (k, ts) = spec_types(s@, i as int);
            r.0 == k && r.1.deep_view() == ts && i <= r.0 <= s@.len()
        }),
{
    let ghost full = spec_types(s@, i as int);
    let mut pos = i;
    let mut acc: Vec<Type> = Vec::new();
    loop
        invariant_except_break
            i <= pos <= s@.len(),
            ({
                let (k, rest) = spec_types(s@, pos as int);
                k == full.0 && acc.deep_view() + rest =~= full.1
            }),
        ensures
            i <= pos <= s@.len(),
            pos == full.0,
            acc.deep_view() =~= full.1,
        decreases s@.len() - pos,
    {
        let start = if pos < s.len() && s[pos] == 10u8 {
            pos + 1
        } else {
            pos
        };
        let r = type_(s, start);
        match r {
            None => {
                proof {
                    let (k, rest) = spec_types(s@, pos as int);
                    assert(rest =~= Seq::<TypeV>::empty());
                    assert(acc.deep_view() + rest =~= acc.deep_view());
                }
                break;
            },
            Some((j, t)) => {
                let ghost accpre = acc.deep_view();
                let ghost accprev: Seq<Type> = acc@;
                let ghost tv = t.deep_view();
                acc.push(t);
                proof {
                    crate::schema::lemma_vec_deep_view(&acc);
                    crate::schema::lemma_deep_seq_push(accprev, acc@.last());
                    assert(accpre =~= crate::schema::deep_seq(accprev));
                    assert(acc.deep_view() =~= accpre.push(tv));
                    let (k2, rest2) = spec_types(s@, j as int);
                    assert(spec_types(s@, pos as int) == (k2, seq![tv] + rest2));
                    assert(acc.deep_view() + rest2 =~= accpre + (seq![tv] + rest2));
                }
                pos = j;
            },
        }
    }
    (pos, acc)
}

// ---------------------------------------------------------------------------
// Error reporting
// ---------------------------------------------------------------------------

/// A parse failure: the 1-based line of the first unparsed character, and a
/// rendered context window with the offending line marked.
#[derive(Debug, Clone, PartialEq, Eq)]
pub struct ParseError {
    pub line: usize,
    pub context: Vec<u8>,
}

/// The number of newlines among the first `j` bytes.
pub open spec fn spec_count_nl(s: Seq<u8>, j: int) -> int
    decreases j,
{
    if j <= 0 {
        0
    } else {
        spec_count_nl(s, j - 1) + if s[j - 1] == 10u8 {
            1int
        } else {
            0int
        }
    }
}

/// The 1-based line number of the byte at `pos`: newlines among the first
/// `pos + 1` bytes, plus one.
pub open spec fn spec_error_line(s: Seq<u8>, pos: int) -> int {
    spec_count_nl(s, pos + 1) + 1
}

/// A line with a trailing carriage return stripped.
pub open spec fn spec_strip_cr(l: Seq<u8>) -> Seq<u8> {
    if l.len() > 0 && l.last() == 13u8 {
        l.drop_last()
    } else {
        l
    }
}

/// The lines of the input from position `i`: split at newlines, carriage
/// returns stripped, no empty line after a trailing newline.
pub open spec fn spec_lines_from(s: Seq<u8>, i: int) -> Seq<Seq<u8>>
    decreases s.len() - i,
{
    if !(0 <= i < s.len()) {
        Seq::empty()
    } else {
        let j = spec_run_end_not(s, i, 10u8);
        if j < s.len() && i <= j {
            seq![spec_strip_cr(s.subrange(i, j))] + spec_lines_from(s, j + 1)
        } else {
            seq![spec_strip_cr(s.subrange(i, j))]
        }
    }
}

/// The number of decimal digits of `n` (one for numbers below ten).
pub open spec fn spec_dec_width(n: int) -> int
    decreases n,
{
    if n < 10 {
        1
    } else {
        1 + spec_dec_width(n / 10)
    }
}

/// The decimal digits of `n`, most significant first.
pub open spec fn spec_dec_digits(n: int) -> Seq<u8>
    decreases n,
{
    if n < 10 {
        seq![(48 + n) as u8]
    } else {
        spec_dec_digits(n / 10) + seq![(48 + n % 10) as u8]
    }
}

proof fn lemma_dec_width_bounds(n: int)
    requires
        n >= 0,
    ensures
        1 <= spec_dec_width(n) <= n + 1,
        spec_dec_digits(n).len() == spec_dec_width(n),
    decreases n,
{
    if n >= 10 {
        lemma_dec_width_bounds(n / 10);
    }
}

/// `k` spaces.
pub open spec fn spec_spaces(k: int) -> Seq<u8>
    decreases k,
{
    if k <= 0 {
        Seq::empty()
    } else {
        spec_spaces(k - 1) + seq![32u8]
    }
}

/// `t` right-aligned in a field of `w` bytes.
pub open spec fn spec_pad_left(t: Seq<u8>, w: int) -> Seq<u8> {
    if t.len() >= w {
        t
    } else {
        spec_spaces(w - t.len()) + t
    }
}

/// `>>> ` before the offending line, four spaces before the others.
pub open spec fn spec_line_prefix(cur: bool) -> Seq<u8> {
    if cur {
        seq![62u8, 62u8, 62u8, 32u8]
    } else {
        seq![32u8, 32u8, 32u8, 32u8]
    }
}

/// One rendered context line: prefix, right-aligned 1-based line number, a
/// box-drawing separator, and the line itself.
pub open spec fn spec_context_line(line: Seq<u8>, no0: int, width: int, cur: bool) -> Seq<u8> {
    spec_line_prefix(cur) + spec_pad_left(spec_dec_digits(no0 + 1), width) + seq![
        32u8,
        226u8,
        148u8,
        130u8,
        32u8,
    ] + line
}

/// The rendered window: lines `start..=end` (as far as they exist), joined
/// with newlines, the line `err` marked.
pub open spec fn spec_context_lines(
    lines: Seq<Seq<u8>>,
    start: int,
    end: int,
    err: int,
    width: int,
) -> Seq<u8>
    decreases end - start,
{
    if start > end || start < 0 || start >= lines.len() {
        Seq::empty()
    } else {
        let cur = spec_context_line(lines[start], start, width, start == err);
        if start + 1 > end || start + 1 >= lines.len() {
            cur
        } else {
            cur + seq![10u8] + spec_context_lines(lines, start + 1, end, err, width)
        }
    }
}

/// The context window around the first unparsed byte: up to ten lines on
/// either side of its line, numbers right-aligned to the widest shown.
pub open spec fn spec_context(s: Seq<u8>, pos: int) -> Seq<u8> {
    let err = spec_count_nl(s, pos + 1);
    let start = if err >= 10 {
        err - 10
    } else {
        0
    };
    let end = err + 10;
    let width = spec_dec_width(end + 1);
    spec_context_lines(spec_lines_from(s, 0), start, end, err, width)
}

fn count_nl(s: &Vec<u8>, j: usize) -> (r: usize)
    requires
        j <= s@.len(),
    ensures
        r == spec_count_nl(s@, j as int),
        r <= j,
{
    let mut r: usize = 0;
    for k in 0..j
        invariant
            j <= s@.len(),
            r == spec_count_nl(s@, k as int),
            r <= k,
    {
        if s[k] == 10u8 {
            r = r + 1;
        }
    }
    r
}

fn split_lines(s: &Vec<u8>) -> (r: Vec<Vec<u8>>)
    ensures
        r.deep_view() == spec_lines_from(s@, 0),
{
    let ghost full = spec_lines_from(s@, 0);
    let mut acc: Vec<Vec<u8>> = Vec::new();
    let mut pos: usize = 0;
    loop
        invariant_except_break
            pos <= s@.len(),
            acc.deep_view() + spec_lines_from(s@, pos as int) =~= full,
        ensures
            acc.deep_view() =~= full,
        decreases s@.len() - pos,
    {
        if pos >= s.len() {
            proof {
                assert(spec_lines_from(s@, pos as int) =~= Seq::<Seq<u8>>::empty());
                assert(acc.deep_view() + spec_lines_from(s@, pos as int) =~= acc.deep_view());
            }
            break;
        }
        let j = run_end_not(s, pos, 10u8);
        let mut line: Vec<u8> = Vec::new();
        let mut k: usize = pos;
        while k < j
            invariant
                pos <= k <= j <= s@.len(),
                line@ =~= s@.subrange(pos as int, k as int),
            decreases j - k,
        {
            let c = s[k];
            line.push(c);
            proof {
                assert(line@ =~= s@.subrange(pos as int, k + 1));
            }
            k = k + 1;
        }
        if line.len() > 0 && line[line.len() - 1] == 13u8 {
            line.pop();
            proof {
                assert(line@ =~= spec_strip_cr(s@.subrange(pos as int, j as int)));
            }
        }
        proof {
            assert(line@ =~= spec_strip_cr(s@.subrange(pos as int, j as int)));
        }
        let ghost accpre = acc.deep_view();
        let ghost accprev: Seq<Vec<u8>> = acc@;
        let ghost lv = line@;
        acc.push(line);
        proof {
            crate::schema::lemma_vec_deep_view(&acc);
            crate::schema::lemma_deep_seq_push(accprev, acc@.last());
            crate::schema::lemma_bytes_deep_view(acc@.last());
            assert(accpre =~= crate::schema::deep_seq(accprev));
            assert(acc.deep_view() =~= accpre.push(lv));
        }
        if j < s.len() {
            proof {
                assert(spec_lines_from(s@, pos as int) =~= seq![lv] + spec_lines_from(
                    s@,
                    j + 1,
                ));
                assert(acc.deep_view() + spec_lines_from(s@, j + 1) =~= accpre + (seq![lv]
                    + spec_lines_from(s@, j + 1)));
            }
            pos = j + 1;
        } else {
            proof {
                assert(spec_lines_from(s@, pos as int) =~= seq![lv]);
                assert(spec_lines_from(s@, j as int) =~= Seq::<Seq<u8>>::empty());
                assert(acc.deep_view() + spec_lines_from(s@, j as int) =~= accpre + seq![lv]);
            }
            pos = j;
        }
    }
    acc
}

pub(crate) fn dec_digits(n: usize) -> (r: Vec<u8>)
    ensures
        r@ == spec_dec_digits(n as int),
    decreases n,
{
    if n < 10 {
        let mut v: Vec<u8> = Vec::new();
        v.push(48 + n as u8);
        assert(v@ =~= spec_dec_digits(n as int));
        v
    } else {
        let mut v = dec_digits(n / 10);
        v.push(48 + (n % 10) as u8);
        assert(v@ =~= spec_dec_digits(n as int));
        v
    }
}

fn dec_width(n: usize) -> (r: usize)
    ensures
        r == spec_dec_width(n as int),
        1 <= r,
    decreases n,
{
    proof {
        lemma_dec_width_bounds(n as int);
    }
    if n < 10 {
        1
    } else {
        proof {
            lemma_dec_width_bounds((n / 10) as int);
        }
        1 + dec_width(n / 10)
    }
}

pub(crate) fn pad_left(t: Vec<u8>, w: usize) -> (r: Vec<u8>)
    ensures
        r@ == spec_pad_left(t@, w as int),
{
    if t.len() >= w {
        return t;
    }
    let k = w - t.len();
    let mut r: Vec<u8> = Vec::new();
    for m in 0..k
        invariant
            r@ =~= spec_spaces(m as int),
    {
        r.push(32u8);
        proof {
            assert(r@ =~= spec_spaces(m + 1));
        }
    }
    let mut tail = t;
    let ghost tv = tail@;
    r.append(&mut tail);
    proof {
        assert(r@ =~= spec_spaces(k as int) + tv);
    }
    r
}

fn context_line(line: &Vec<u8>, no0: usize, width: usize, cur: bool) -> (r: Vec<u8>)
    requires
        no0 < usize::MAX,
    ensures
        r@ == spec_context_line(line@, no0 as int, width as int, cur),
{
    let mut r: Vec<u8> = Vec::new();
    if cur {
        r.push(62u8);
        r.push(62u8);
        r.push(62u8);
        r.push(32u8);
    } else {
        r.push(32u8);
        r.push(32u8);
        r.push(32u8);
        r.push(32u8);
    }
    proof {
        assert(r@ =~= spec_line_prefix(cur));
    }
    let ghost pre = r@;
    let mut num = pad_left(dec_digits(no0 + 1), width);
    let ghost numv = num@;
    r.append(&mut num);
    r.push(32u8);
    r.push(226u8);
    r.push(148u8);
    r.push(130u8);
    r.push(32u8);
    let ghost mid = r@;
    proof {
        assert(mid =~= pre + numv + seq![32u8, 226u8, 148u8, 130u8, 32u8]);
    }
    let mut l: Vec<u8> = Vec::new();
    l.extend_from_slice(line.as_slice());
    let ghost lv = l@;
    proof {
        assert(lv =~= line@);
    }
    r.append(&mut l);
    proof {
        assert(r@ =~= spec_context_line(line@, no0 as int, width as int, cur));
    }
    r
}

fn context_lines(
    lines: &Vec<Vec<u8>>,
    start: usize,
    end: usize,
    err: usize,
    width: usize,
) -> (r: Vec<u8>)
    requires
        end < usize::MAX,
    ensures
        r@ == spec_context_lines(
            lines.deep_view(),
            start as int,
            end as int,
            err as int,
            width as int,
        ),
    decreases end - start,
{
    let ghost dv = lines.deep_view();
    if start > end || start >= lines.len() {
        let r: Vec<u8> = Vec::new();
        proof {
            assert(r@ =~= spec_context_lines(
                dv,
                start as int,
                end as int,
                err as int,
                width as int,
            ));
        }
        return r;
    }
    let mut cur = context_line(&lines[start], start, width, start == err);
    proof {
        crate::schema::lemma_deep_view_index(lines, start as int);
        crate::schema::lemma_bytes_deep_view(lines@[start as int]);
    }
    if start + 1 > end || start + 1 >= lines.len() {
        proof {
            assert(cur@ =~= spec_context_lines(
                dv,
                start as int,
                end as int,
                err as int,
                width as int,
            ));
        }
        cur
    } else {
        cur.push(10u8);
        let mut rest = context_lines(lines, start + 1, end, err, width);
        let ghost curv = cur@;
        let ghost restv = rest@;
        cur.append(&mut rest);
        proof {
            assert(cur@ =~= spec_context_lines(
                dv,
                start as int,
                end as int,
                err as int,
                width as int,
            ));
        }
        cur
    }
}

/// Renders the 1-based line number of the byte at `pos` and a context window
/// of up to ten lines on either side, the offending line marked.
pub fn format_context(input: &Vec<u8>, pos: usize) -> (r: (usize, Vec<u8>))
    requires
        pos < input@.len(),
        input@.len() + 11 <= usize::MAX,
    ensures
        r.0 == spec_error_line(input@, pos as int),
        r.1@ == spec_context(input@, pos as int),
{
    let err = count_nl(input, pos + 1);
    let start = if err >= 10 {
        err - 10
    } else {
        0
    };
    let end = err + 10;
    let width = dec_width(end + 1);
    let lines = split_lines(input);
    let context = context_lines(&lines, start, end, err, width);
    (err + 1, context)
}

/// Parses a normalized report into its type records.  The whole input must
/// parse: any unconsumed remainder is an error naming the line where parsing
/// stopped, with a rendered context window.
pub fn parse(input: &Vec<u8>) -> (r: Result<Vec<Type>, ParseError>)
    requires
        input@.len() + 11 <= usize::MAX,
    ensures
        ({
            let (pos, tys) = spec_types(input@, 0);
            match r {
                Ok(ts) => pos == input@.len() && ts.deep_view() == tys,
                Err(e) => pos < input@.len() && e.line == spec_error_line(input@, pos)
                    && e.context@ == spec_context(input@, pos),
            }
        }),
{
    let (pos, ts) = types(input, 0);
    if pos == input.len() {
        Ok(ts)
    } else {
        let (line, context) = format_context(input, pos);
        Err(ParseError { line, context })
    }
}

} // verus!
