//! The transformation pipeline: filter, sort, deduplicate, expand, truncate,
//! and per-type refinement.  Every stage is a pure function with an exact
//! functional contract over the views of [`crate::schema`]; `spec_transform`
//! is the pipeline's mathematical statement.

use vstd::prelude::*;
use crate::schema::{
    items_eq, type_eq, EnumType, EnumTypeV, EnumVariant, EnumVariantV, FieldOrPadding,
    FieldOrPaddingV, StructType, StructTypeV, Type, TypeKind, TypeKindV, TypeV,
};
use crate::options::{Options, OptionsV};
use crate::patterns::{any_match, spec_any_match};

verus! {

// ---------------------------------------------------------------------------
// Wrapper detection
// ---------------------------------------------------------------------------

/// Every item of the list has the type's full size or size zero.
pub open spec fn spec_items_wrap(size: usize, items: Seq<FieldOrPaddingV>) -> bool {
    forall|i: int| 0 <= i < items.len() ==> items[i].size() == size || items[i].size() == 0
}

/// A wrapper: no end padding, and every item (across all struct items, or all
/// items of every variant) has the type's size or size zero; an enum
/// additionally has no discriminant.
pub open spec fn spec_is_wrapper(t: TypeV) -> bool {
    &&& t.end_padding is None
    &&& match t.kind {
        TypeKindV::Struct(s) => spec_items_wrap(t.size, s.items),
        TypeKindV::Enum(e) => {
            &&& e.discriminant_size is None
            &&& forall|i: int|
                0 <= i < e.variants.len() ==> spec_items_wrap(t.size, e.variants[i].items)
        },
    }
}

fn items_wrap(size: usize, items: &Vec<FieldOrPadding>) -> (r: bool)
    ensures
        r == spec_items_wrap(size, items.deep_view()),
{
    let ghost dv = items.deep_view();
    for i in 0..items.len()
        invariant
            dv == items.deep_view(),
            forall|j: int| 0 <= j < i ==> dv[j].size() == size || dv[j].size() == 0,
    {
        let s = items[i].size();
        assert(dv[i as int] == items@[i as int].deep_view());
        if s != size && s != 0 {
            return false;
        }
    }
    true
}

/// Detects wrappers: types whose layout is indistinguishable from a single
/// non-zero-sized member (`MaybeUninit` and similar).
pub fn is_wrapper(t: &Type) -> (r: bool)
    ensures
        r == spec_is_wrapper(t.deep_view()),
{
    if t.end_padding.is_some() {
        return false;
    }
    match &t.kind {
        TypeKind::Struct(s) => items_wrap(t.size, &s.items),
        TypeKind::Enum(e) => {
            if e.discriminant_size.is_some() {
                return false;
            }
            let ghost dv = e.variants.deep_view();
            for i in 0..e.variants.len()
                invariant
                    dv == e.variants.deep_view(),
                    t.deep_view().kind matches TypeKindV::Enum(ev) && ev.variants == dv,
                    forall|j: int| 0 <= j < i ==> spec_items_wrap(t.size, dv[j].items),
            {
                let w = items_wrap(t.size, &e.variants[i].items);
                assert(dv[i as int] == e.variants@[i as int].deep_view());
                if !w {
                    return false;
                }
            }
            true
        },
    }
}

// ---------------------------------------------------------------------------
// Stage 1: filter
// ---------------------------------------------------------------------------

/// Whether the filter stage keeps a type: its size reaches the configured
/// minimum, it is no wrapper when wrappers are dropped, it matches no exclude
/// pattern, and it matches some include pattern when any are configured.
pub open spec fn spec_keeps(t: TypeV, o: OptionsV) -> bool {
    &&& t.size >= (match o.hide_less {
        Some(h) => h,
        None => 0,
    })
    &&& !(o.remove_wrappers && spec_is_wrapper(t))
    &&& !spec_any_match(o.exclude, t.name)
    &&& (o.filter.len() == 0 || spec_any_match(o.filter, t.name))
}

/// The filter stage: the subsequence of types that `spec_keeps` retains.
pub open spec fn spec_filter_types(s: Seq<TypeV>, o: OptionsV) -> Seq<TypeV>
    decreases s.len(),
{
    if s.len() == 0 {
        Seq::empty()
    } else {
        spec_filter_types(s.drop_last(), o) + if spec_keeps(s.last(), o) {
            seq![s.last()]
        } else {
            Seq::empty()
        }
    }
}

fn keeps_type(t: &Type, options: &Options) -> (r: bool)
    ensures
        r == spec_keeps(t.deep_view(), options.deep_view()),
{
    let min = match options.hide_less {
        Some(h) => h,
        None => 0,
    };
    if t.size < min {
        return false;
    }
    if options.remove_wrappers && is_wrapper(t) {
        return false;
    }
    if any_match(&options.exclude, &t.name) {
        return false;
    }
    if options.filter.len() == 0 {
        true
    } else {
        any_match(&options.filter, &t.name)
    }
}

/// Filters the types by size, wrapper detection and the configured patterns.
pub fn filter_types(types: Vec<Type>, options: &Options) -> (r: Vec<Type>)
    ensures
        r.deep_view() == spec_filter_types(types.deep_view(), options.deep_view()),
{
    let ghost orig = types.deep_view();
    let ghost ov = options.deep_view();
    let mut rest = types;
    let n = rest.len();
    assert(orig.len() == n);
    let mut out: Vec<Type> = Vec::new();
    let mut i: usize = 0;
    while rest.len() > 0
        invariant
            ov == options.deep_view(),
            orig.len() <= usize::MAX,
            i + rest@.len() == orig.len(),
            rest.deep_view() =~= orig.skip(i as int),
            out.deep_view() =~= spec_filter_types(orig.take(i as int), ov),
        decreases rest@.len(),
    {
        let ghost pre = rest.deep_view();
        let ghost prev: Seq<Type> = rest@;
        let t = rest.remove(0);
        proof {
            crate::schema::lemma_vec_deep_view(&rest);
            crate::schema::lemma_deep_seq_remove_front(prev);
            assert(pre =~= crate::schema::deep_seq(prev));
            assert(t.deep_view() == orig[i as int]);
            assert(rest.deep_view() =~= orig.skip(i as int + 1));
        }
        let ghost outpre = out.deep_view();
        let ghost outprev: Seq<Type> = out@;
        if keeps_type(&t, options) {
            out.push(t);
            proof {
                crate::schema::lemma_vec_deep_view(&out);
                crate::schema::lemma_deep_seq_push(outprev, out@.last());
                assert(outpre =~= crate::schema::deep_seq(outprev));
                assert(out.deep_view() =~= outpre.push(orig[i as int]));
            }
        }
        proof {
            assert(orig.take(i as int + 1).drop_last() =~= orig.take(i as int));
            assert(orig.take(i as int + 1).last() == orig[i as int]);
            assert(out.deep_view() =~= spec_filter_types(orig.take(i as int + 1), ov));
        }
        i = i + 1;
    }
    proof {
        assert(orig.take(orig.len() as int) =~= orig);
    }
    out
}

// ---------------------------------------------------------------------------
// Stage 2: stable sort, descending by size, ascending by name as tiebreak
// ---------------------------------------------------------------------------

/// Lexicographic order on byte strings: a proper prefix comes first, otherwise
/// the first differing byte decides.
pub open spec fn spec_lex_le(a: Seq<u8>, b: Seq<u8>) -> bool
    decreases a.len(),
{
    if a.len() == 0 {
        true
    } else if b.len() == 0 {
        false
    } else if a[0] < b[0] {
        true
    } else if a[0] > b[0] {
        false
    } else {
        spec_lex_le(a.drop_first(), b.drop_first())
    }
}

/// The sort order of the pipeline: larger sizes first; equal sizes ordered by
/// name, lexicographically ascending.
pub open spec fn spec_type_le(a: TypeV, b: TypeV) -> bool {
    a.size > b.size || (a.size == b.size && spec_lex_le(a.name, b.name))
}

/// Strictly before in the sort order.
pub open spec fn spec_type_lt(a: TypeV, b: TypeV) -> bool {
    spec_type_le(a, b) && !spec_type_le(b, a)
}

/// Sharing a prefix does not change the lexicographic comparison: it is
/// decided by the remainders.
proof fn lemma_lex_le_skip(a: Seq<u8>, b: Seq<u8>, k: int)
    requires
        0 <= k <= a.len(),
        k <= b.len(),
        forall|j: int| 0 <= j < k ==> a[j] == b[j],
    ensures
        spec_lex_le(a, b) == spec_lex_le(a.skip(k), b.skip(k)),
    decreases k,
{
    if k == 0 {
        assert(a.skip(0) =~= a);
        assert(b.skip(0) =~= b);
    } else {
        assert(a[0] == b[0]);
        lemma_lex_le_skip(a.drop_first(), b.drop_first(), k - 1);
        assert(a.drop_first().skip(k - 1) =~= a.skip(k));
        assert(b.drop_first().skip(k - 1) =~= b.skip(k));
    }
}

/// Compares two byte strings lexicographically.
fn lex_le(a: &Vec<u8>, b: &Vec<u8>) -> (r: bool)
    ensures
        r == spec_lex_le(a@, b@),
{
    let mut i: usize = 0;
    while i < a.len() && i < b.len()
        invariant
            i <= a@.len(),
            i <= b@.len(),
            forall|j: int| 0 <= j < i ==> a@[j] == b@[j],
        decreases a@.len() - i,
    {
        let x = a[i];
        let y = b[i];
        if x < y {
            proof {
                lemma_lex_le_skip(a@, b@, i as int);
                assert(a@.skip(i as int)[0] == a@[i as int]);
                assert(b@.skip(i as int)[0] == b@[i as int]);
            }
            return true;
        }
        if x > y {
            proof {
                lemma_lex_le_skip(a@, b@, i as int);
                assert(a@.skip(i as int)[0] == a@[i as int]);
                assert(b@.skip(i as int)[0] == b@[i as int]);
            }
            return false;
        }
        i = i + 1;
    }
    proof {
        lemma_lex_le_skip(a@, b@, i as int);
    }
    a.len() <= b.len()
}

/// Whether `a` sorts strictly before `b`.
fn type_lt(a: &Type, b: &Type) -> (r: bool)
    ensures
        r == spec_type_lt(a.deep_view(), b.deep_view()),
{
    if a.size > b.size {
        true
    } else if a.size < b.size {
        false
    } else {
        let ab = lex_le(&a.name, &b.name);
        let ba = lex_le(&b.name, &a.name);
        ab && !ba
    }
}

/// Stable insertion of `t` into `s`: `t` goes before the first element that
/// it sorts strictly before, so it lands after every earlier equal element.
pub open spec fn spec_insert_type(t: TypeV, s: Seq<TypeV>) -> Seq<TypeV>
    decreases s.len(),
{
    if s.len() == 0 {
        seq![t]
    } else if spec_type_lt(t, s[0]) {
        seq![t] + s
    } else {
        seq![s[0]] + spec_insert_type(t, s.drop_first())
    }
}

/// The sort stage: stable insertion sort under `spec_type_le`.
pub open spec fn spec_sort_types(s: Seq<TypeV>) -> Seq<TypeV>
    decreases s.len(),
{
    if s.len() == 0 {
        Seq::empty()
    } else {
        spec_insert_type(s.last(), spec_sort_types(s.drop_last()))
    }
}

/// Inserting at the first position whose element `t` sorts strictly before is
/// what `spec_insert_type` computes.
pub(crate) proof fn lemma_insert_type_position(t: TypeV, s: Seq<TypeV>, k: int)
    requires
        0 <= k <= s.len(),
        forall|j: int| 0 <= j < k ==> !spec_type_lt(t, s[j]),
        k < s.len() ==> spec_type_lt(t, s[k]),
    ensures
        spec_insert_type(t, s) == s.insert(k, t),
    decreases s.len(),
{
    if s.len() == 0 {
        assert(spec_insert_type(t, s) =~= s.insert(0, t));
    } else if k == 0 {
        assert(spec_type_lt(t, s[0]));
        assert(seq![t] + s =~= s.insert(0, t));
    } else {
        assert(!spec_type_lt(t, s[0]));
        lemma_insert_type_position(t, s.drop_first(), k - 1);
        assert(seq![s[0]] + s.drop_first().insert(k - 1, t) =~= s.insert(k, t));
    }
}

/// Inserts `t` into the already sorted `out`, keeping it after equal keys.
fn insert_type_sorted(out: &mut Vec<Type>, t: Type)
    ensures
        final(out).deep_view() == spec_insert_type(t.deep_view(), old(out).deep_view()),
{
    let ghost s = out.deep_view();
    let ghost tv = t.deep_view();
    let mut k: usize = 0;
    loop
        invariant_except_break
            s == out.deep_view(),
            out@.len() == s.len(),
            tv == t.deep_view(),
            k <= s.len(),
            forall|j: int| 0 <= j < k ==> !spec_type_lt(tv, s[j]),
        ensures
            s == out.deep_view(),
            tv == t.deep_view(),
            k <= s.len(),
            forall|j: int| 0 <= j < k ==> !spec_type_lt(tv, s[j]),
            k < s.len() ==> spec_type_lt(tv, s[k as int]),
        decreases s.len() - k,
    {
        if k == out.len() {
            break;
        }
        let lt = type_lt(&t, &out[k]);
        proof {
            crate::schema::lemma_deep_view_index(out, k as int);
        }
        if lt {
            break;
        }
        k = k + 1;
    }
    proof {
        lemma_insert_type_position(tv, s, k as int);
    }
    let ghost prev: Seq<Type> = out@;
    out.insert(k, t);
    proof {
        crate::schema::lemma_vec_deep_view(&out);
        crate::schema::lemma_deep_seq_insert(prev, k as int, out@[k as int]);
        assert(s =~= crate::schema::deep_seq(prev));
        assert(out.deep_view() =~= s.insert(k as int, tv));
    }
}

/// The sort stage: stable, descending by size, names ascending as tiebreak.
pub fn sort_types(types: Vec<Type>) -> (r: Vec<Type>)
    ensures
        r.deep_view() == spec_sort_types(types.deep_view()),
{
    let ghost orig = types.deep_view();
    let mut rest = types;
    let n = rest.len();
    assert(orig.len() == n);
    let mut out: Vec<Type> = Vec::new();
    let mut i: usize = 0;
    while rest.len() > 0
        invariant
            orig.len() <= usize::MAX,
            i + rest@.len() == orig.len(),
            rest.deep_view() =~= orig.skip(i as int),
            out.deep_view() =~= spec_sort_types(orig.take(i as int)),
        decreases rest@.len(),
    {
        let ghost pre = rest.deep_view();
        let ghost prev: Seq<Type> = rest@;
        let t = rest.remove(0);
        proof {
            crate::schema::lemma_vec_deep_view(&rest);
            crate::schema::lemma_deep_seq_remove_front(prev);
            assert(pre =~= crate::schema::deep_seq(prev));
            assert(t.deep_view() == orig[i as int]);
            assert(rest.deep_view() =~= orig.skip(i as int + 1));
        }
        insert_type_sorted(&mut out, t);
        proof {
            assert(orig.take(i as int + 1).drop_last() =~= orig.take(i as int));
            assert(orig.take(i as int + 1).last() == orig[i as int]);
            assert(out.deep_view() =~= spec_sort_types(orig.take(i as int + 1)));
        }
        i = i + 1;
    }
    proof {
        assert(orig.take(orig.len() as int) =~= orig);
    }
    out
}

// ---------------------------------------------------------------------------
// Stage 3: deduplicate adjacent structurally equal types
// ---------------------------------------------------------------------------

/// The dedup stage: drops a type that is structurally equal to the kept type
/// right before it.
pub open spec fn spec_dedup_types(s: Seq<TypeV>) -> Seq<TypeV>
    decreases s.len(),
{
    if s.len() == 0 {
        Seq::empty()
    } else {
        let r = spec_dedup_types(s.drop_last());
        if r.len() > 0 && r.last() == s.last() {
            r
        } else {
            r.push(s.last())
        }
    }
}

/// Collapses adjacent structurally equal types into one.
pub fn dedup_types(types: Vec<Type>) -> (r: Vec<Type>)
    ensures
        r.deep_view() == spec_dedup_types(types.deep_view()),
{
    let ghost orig = types.deep_view();
    let mut rest = types;
    let n = rest.len();
    assert(orig.len() == n);
    let mut out: Vec<Type> = Vec::new();
    let mut i: usize = 0;
    while rest.len() > 0
        invariant
            orig.len() <= usize::MAX,
            i + rest@.len() == orig.len(),
            rest.deep_view() =~= orig.skip(i as int),
            out.deep_view() =~= spec_dedup_types(orig.take(i as int)),
        decreases rest@.len(),
    {
        let ghost pre = rest.deep_view();
        let ghost prev: Seq<Type> = rest@;
        let t = rest.remove(0);
        proof {
            crate::schema::lemma_vec_deep_view(&rest);
            crate::schema::lemma_deep_seq_remove_front(prev);
            assert(pre =~= crate::schema::deep_seq(prev));
            assert(t.deep_view() == orig[i as int]);
            assert(rest.deep_view() =~= orig.skip(i as int + 1));
        }
        let ghost outpre = out.deep_view();
        let ghost outprev: Seq<Type> = out@;
        let dup = out.len() > 0 && type_eq(&out[out.len() - 1], &t);
        proof {
            if out@.len() > 0 {
                crate::schema::lemma_deep_view_index(&out, out@.len() - 1);
                assert(outpre.last() == out@[out@.len() - 1].deep_view());
            }
        }
        if !dup {
            out.push(t);
            proof {
                crate::schema::lemma_vec_deep_view(&out);
                crate::schema::lemma_deep_seq_push(outprev, out@.last());
                assert(outpre =~= crate::schema::deep_seq(outprev));
                assert(out.deep_view() =~= outpre.push(orig[i as int]));
            }
        }
        proof {
            assert(orig.take(i as int + 1).drop_last() =~= orig.take(i as int));
            assert(orig.take(i as int + 1).last() == orig[i as int]);
            assert(out.deep_view() =~= spec_dedup_types(orig.take(i as int + 1)));
        }
        i = i + 1;
    }
    proof {
        assert(orig.take(orig.len() as int) =~= orig);
    }
    out
}

// ---------------------------------------------------------------------------
// Stage 4: expand
// ---------------------------------------------------------------------------

/// The names that the items reference through their textual type annotations.
pub open spec fn spec_item_names(items: Seq<FieldOrPaddingV>) -> Set<Seq<u8>>
    decreases items.len(),
{
    if items.len() == 0 {
        Set::empty()
    } else {
        spec_item_names(items.drop_last()).union(
            match items.last() {
                FieldOrPaddingV::Field(f) => match f.local_type {
                    Some(t) => Set::empty().insert(t),
                    None => Set::empty(),
                },
                FieldOrPaddingV::Padding(_) => Set::empty(),
            },
        )
    }
}

/// The sizes of the items' fields (paddings contribute nothing).
pub open spec fn spec_item_sizes(items: Seq<FieldOrPaddingV>) -> Set<usize>
    decreases items.len(),
{
    if items.len() == 0 {
        Set::empty()
    } else {
        spec_item_sizes(items.drop_last()).union(
            match items.last() {
                FieldOrPaddingV::Field(f) => Set::empty().insert(f.size),
                FieldOrPaddingV::Padding(_) => Set::empty(),
            },
        )
    }
}

/// Referenced names across all items of all variants.
pub open spec fn spec_variant_names(vs: Seq<EnumVariantV>) -> Set<Seq<u8>>
    decreases vs.len(),
{
    if vs.len() == 0 {
        Set::empty()
    } else {
        spec_variant_names(vs.drop_last()).union(spec_item_names(vs.last().items))
    }
}

/// Field sizes across all items of all variants.
pub open spec fn spec_variant_sizes(vs: Seq<EnumVariantV>) -> Set<usize>
    decreases vs.len(),
{
    if vs.len() == 0 {
        Set::empty()
    } else {
        spec_variant_sizes(vs.drop_last()).union(spec_item_sizes(vs.last().items))
    }
}

/// The type names a type references through its fields' annotations.
pub open spec fn spec_type_names(t: TypeV) -> Set<Seq<u8>> {
    match t.kind {
        TypeKindV::Struct(s) => spec_item_names(s.items),
        TypeKindV::Enum(e) => spec_variant_names(e.variants),
    }
}

/// The field sizes a type contributes to size-based expansion.
pub open spec fn spec_type_ref_sizes(t: TypeV) -> Set<usize> {
    match t.kind {
        TypeKindV::Struct(s) => spec_item_sizes(s.items),
        TypeKindV::Enum(e) => spec_variant_sizes(e.variants),
    }
}

/// One forward pass from position `i`, with the names and sizes collected
/// from the types retained so far.  A type is retained when its name was
/// referenced before, or its size was (in size mode), or it matches a seed
/// pattern; only retained types contribute to the visited sets, so a dropped
/// type is never reconsidered.
pub open spec fn spec_expand_from(
    s: Seq<TypeV>,
    i: int,
    names: Set<Seq<u8>>,
    sizes: Set<usize>,
    pats: Seq<Seq<char>>,
    use_size: bool,
) -> Seq<TypeV>
    decreases s.len() - i,
{
    if !(0 <= i < s.len()) {
        Seq::empty()
    } else {
        let t = s[i];
        if names.contains(t.name) || sizes.contains(t.size) || spec_any_match(pats, t.name) {
            seq![t] + spec_expand_from(
                s,
                i + 1,
                names.union(spec_type_names(t)),
                if use_size {
                    sizes.union(spec_type_ref_sizes(t))
                } else {
                    sizes
                },
                pats,
                use_size,
            )
        } else {
            spec_expand_from(s, i + 1, names, sizes, pats, use_size)
        }
    }
}

/// The expand stage: with no seed patterns it changes nothing, otherwise it
/// keeps the single-pass reachable types.
pub open spec fn spec_expand(s: Seq<TypeV>, pats: Seq<Seq<char>>, use_size: bool) -> Seq<TypeV> {
    if pats.len() == 0 {
        s
    } else {
        spec_expand_from(s, 0, Set::empty(), Set::empty(), pats, use_size)
    }
}

fn names_contains(names: &Vec<Vec<u8>>, key: &Vec<u8>) -> (r: bool)
    ensures
        r == names.deep_view().to_set().contains(key@),
{
    let ghost dv = names.deep_view();
    for i in 0..names.len()
        invariant
            dv == names.deep_view(),
            forall|j: int| 0 <= j < i ==> dv[j] != key@,
    {
        let e = crate::schema::bytes_eq(&names[i], key);
        proof {
            crate::schema::lemma_deep_view_index(names, i as int);
            crate::schema::lemma_bytes_deep_view(names@[i as int]);
        }
        if e {
            proof {
                assert(dv.contains(key@));
            }
            return true;
        }
    }
    proof {
        assert(!dv.contains(key@)) by {
            if dv.contains(key@) {
                let j = choose|j: int| 0 <= j < dv.len() && dv[j] == key@;
                assert(false);
            }
        }
    }
    false
}

fn sizes_contains(sizes: &Vec<usize>, key: usize) -> (r: bool)
    ensures
        r == sizes@.to_set().contains(key),
{
    for i in 0..sizes.len()
        invariant
            forall|j: int| 0 <= j < i ==> sizes@[j] != key,
    {
        if sizes[i] == key {
            proof {
                assert(sizes@.contains(key));
            }
            return true;
        }
    }
    proof {
        assert(!sizes@.contains(key)) by {
            if sizes@.contains(key) {
                let j = choose|j: int| 0 <= j < sizes@.len() && sizes@[j] == key;
                assert(false);
            }
        }
    }
    false
}

/// Copies a byte string.
fn copy_bytes(v: &Vec<u8>) -> (r: Vec<u8>)
    ensures
        r@ == v@,
{
    let mut c: Vec<u8> = Vec::new();
    c.extend_from_slice(v.as_slice());
    assert(c@ =~= v@);
    c
}

fn collect_items(
    items: &Vec<FieldOrPadding>,
    names: &mut Vec<Vec<u8>>,
    sizes: &mut Vec<usize>,
    use_size: bool,
)
    ensures
        final(names).deep_view().to_set() == old(names).deep_view().to_set().union(
            spec_item_names(items.deep_view()),
        ),
        final(sizes)@.to_set() == old(sizes)@.to_set().union(
            if use_size {
                spec_item_sizes(items.deep_view())
            } else {
                Set::empty()
            },
        ),
{
    let ghost dv = items.deep_view();
    let ghost n0 = old(names).deep_view().to_set();
    let ghost s0 = old(sizes)@.to_set();
    let ghost all = items.deep_view();
    for i in 0..items.len()
        invariant
            dv == items.deep_view(),
            names.deep_view().to_set() =~= n0.union(spec_item_names(dv.take(i as int))),
            sizes@.to_set() =~= s0.union(
                if use_size {
                    spec_item_sizes(dv.take(i as int))
                } else {
                    Set::empty()
                },
            ),
    {
        proof {
            crate::schema::lemma_deep_view_index(items, i as int);
            assert(dv.take(i as int + 1).drop_last() =~= dv.take(i as int));
            assert(dv.take(i as int + 1).last() == dv[i as int]);
        }
        match &items[i] {
            FieldOrPadding::Field(f) => {
                if let Some(tn) = &f.local_type {
                    let c = copy_bytes(tn);
                    let ghost ndv = names.deep_view();
                    let ghost nprev: Seq<Vec<u8>> = names@;
                    names.push(c);
                    proof {
                        crate::schema::lemma_vec_deep_view(&names);
                        crate::schema::lemma_deep_seq_push(nprev, names@.last());
                        crate::schema::lemma_bytes_deep_view(names@.last());
                        assert(ndv =~= crate::schema::deep_seq(nprev));
                        assert(names.deep_view() =~= ndv.push(tn@));
                        ndv.lemma_push_to_set_commute(tn@);
                    }
                }
                proof {
                    assert(names.deep_view().to_set() =~= n0.union(
                        spec_item_names(dv.take(i as int + 1)),
                    ));
                }
                if use_size {
                    let ghost sv: Seq<usize> = sizes@;
                    sizes.push(f.size);
                    proof {
                        sv.lemma_push_to_set_commute(f.size);
                        assert(sizes@.to_set() =~= s0.union(
                            spec_item_sizes(dv.take(i as int + 1)),
                        ));
                    }
                } else {
                    proof {
                        assert(sizes@.to_set() =~= s0.union(Set::<usize>::empty()));
                    }
                }
            },
            FieldOrPadding::Padding(_) => {
                proof {
                    assert(names.deep_view().to_set() =~= n0.union(
                        spec_item_names(dv.take(i as int + 1)),
                    ));
                    assert(sizes@.to_set() =~= s0.union(
                        if use_size {
                            spec_item_sizes(dv.take(i as int + 1))
                        } else {
                            Set::empty()
                        },
                    ));
                }
            },
        }
    }
    proof {
        assert(dv.take(dv.len() as int) =~= dv);
    }
}

fn collect_type(t: &Type, names: &mut Vec<Vec<u8>>, sizes: &mut Vec<usize>, use_size: bool)
    ensures
        final(names).deep_view().to_set() == old(names).deep_view().to_set().union(
            spec_type_names(t.deep_view()),
        ),
        final(sizes)@.to_set() == old(sizes)@.to_set().union(
            if use_size {
                spec_type_ref_sizes(t.deep_view())
            } else {
                Set::empty()
            },
        ),
{
    match &t.kind {
        TypeKind::Struct(s) => {
            collect_items(&s.items, names, sizes, use_size);
        },
        TypeKind::Enum(e) => {
            let ghost vs = e.variants.deep_view();
            let ghost n0 = old(names).deep_view().to_set();
            let ghost s0 = old(sizes)@.to_set();
            for i in 0..e.variants.len()
                invariant
                    vs == e.variants.deep_view(),
                    t.deep_view().kind matches TypeKindV::Enum(ev) && ev.variants == vs,
                    names.deep_view().to_set() =~= n0.union(spec_variant_names(vs.take(i as int))),
                    sizes@.to_set() =~= s0.union(
                        if use_size {
                            spec_variant_sizes(vs.take(i as int))
                        } else {
                            Set::empty()
                        },
                    ),
            {
                proof {
                    crate::schema::lemma_deep_view_index(&e.variants, i as int);
                    assert(vs.take(i as int + 1).drop_last() =~= vs.take(i as int));
                    assert(vs.take(i as int + 1).last() == vs[i as int]);
                }
                collect_items(&e.variants[i].items, names, sizes, use_size);
                proof {
                    assert(names.deep_view().to_set() =~= n0.union(
                        spec_variant_names(vs.take(i as int + 1)),
                    ));
                    assert(sizes@.to_set() =~= s0.union(
                        if use_size {
                            spec_variant_sizes(vs.take(i as int + 1))
                        } else {
                            Set::empty()
                        },
                    ));
                }
            }
            proof {
                assert(vs.take(vs.len() as int) =~= vs);
            }
        },
    }
}

/// The expand stage: retains only the types that the seed patterns match and
/// the types they reach, by the referenced type names of earlier retained
/// types' fields (and their sizes, in size mode), in one forward pass.
pub fn expand(types: Vec<Type>, patterns: &Vec<String>, use_size: bool) -> (r: Vec<Type>)
    ensures
        r.deep_view() == spec_expand(types.deep_view(), patterns.deep_view(), use_size),
{
    if patterns.len() == 0 {
        return types;
    }
    let ghost orig = types.deep_view();
    let ghost pats = patterns.deep_view();
    let mut rest = types;
    let n = rest.len();
    assert(orig.len() == n);
    let mut out: Vec<Type> = Vec::new();
    let mut names: Vec<Vec<u8>> = Vec::new();
    let mut sizes: Vec<usize> = Vec::new();
    let mut i: usize = 0;
    proof {
        assert(names.deep_view().to_set() =~= Set::<Seq<u8>>::empty());
        assert(sizes@.to_set() =~= Set::<usize>::empty());
        assert(out.deep_view() + spec_expand_from(
            orig,
            0,
            names.deep_view().to_set(),
            sizes@.to_set(),
            pats,
            use_size,
        ) =~= spec_expand_from(orig, 0, Set::empty(), Set::empty(), pats, use_size));
    }
    while rest.len() > 0
        invariant
            pats == patterns.deep_view(),
            pats.len() > 0,
            orig.len() <= usize::MAX,
            i + rest@.len() == orig.len(),
            rest.deep_view() =~= orig.skip(i as int),
            out.deep_view() + spec_expand_from(
                orig,
                i as int,
                names.deep_view().to_set(),
                sizes@.to_set(),
                pats,
                use_size,
            ) =~= spec_expand_from(orig, 0, Set::empty(), Set::empty(), pats, use_size),
        decreases rest@.len(),
    {
        let ghost pre = rest.deep_view();
        let ghost prev: Seq<Type> = rest@;
        let t = rest.remove(0);
        proof {
            crate::schema::lemma_vec_deep_view(&rest);
            crate::schema::lemma_deep_seq_remove_front(prev);
            assert(pre =~= crate::schema::deep_seq(prev));
            assert(t.deep_view() == orig[i as int]);
            assert(rest.deep_view() =~= orig.skip(i as int + 1));
        }
        let ghost nset = names.deep_view().to_set();
        let ghost sset = sizes@.to_set();
        let nm = names_contains(&names, &t.name);
        let sz = sizes_contains(&sizes, t.size);
        let pm = any_match(patterns, &t.name);
        if nm || sz || pm {
            collect_type(&t, &mut names, &mut sizes, use_size);
            let ghost outpre = out.deep_view();
            let ghost outprev: Seq<Type> = out@;
            out.push(t);
            proof {
                crate::schema::lemma_vec_deep_view(&out);
                crate::schema::lemma_deep_seq_push(outprev, out@.last());
                assert(outpre =~= crate::schema::deep_seq(outprev));
                assert(out.deep_view() =~= outpre.push(orig[i as int]));
                if !use_size {
                    assert(sizes@.to_set() =~= sset.union(Set::<usize>::empty()));
                    assert(sizes@.to_set() =~= sset);
                }
                assert(spec_expand_from(orig, i as int, nset, sset, pats, use_size) == seq![
                    orig[i as int],
                ] + spec_expand_from(
                    orig,
                    i as int + 1,
                    names.deep_view().to_set(),
                    sizes@.to_set(),
                    pats,
                    use_size,
                ));
                assert(out.deep_view() + spec_expand_from(
                    orig,
                    i as int + 1,
                    names.deep_view().to_set(),
                    sizes@.to_set(),
                    pats,
                    use_size,
                ) =~= outpre + spec_expand_from(orig, i as int, nset, sset, pats, use_size));
            }
        } else {
            proof {
                assert(spec_expand_from(orig, i as int, nset, sset, pats, use_size)
                    == spec_expand_from(orig, i as int + 1, nset, sset, pats, use_size));
            }
        }
        i = i + 1;
    }
    proof {
        assert(spec_expand_from(
            orig,
            i as int,
            names.deep_view().to_set(),
            sizes@.to_set(),
            pats,
            use_size,
        ) =~= Seq::<TypeV>::empty());
        assert(out.deep_view() =~= out.deep_view() + Seq::<TypeV>::empty());
    }
    out
}

// ---------------------------------------------------------------------------
// Stage 5: truncate
// ---------------------------------------------------------------------------

/// The truncate stage: keep only the first `limit` entries, when a limit is
/// configured.
pub open spec fn spec_truncate(s: Seq<TypeV>, limit: Option<usize>) -> Seq<TypeV> {
    match limit {
        None => s,
        Some(l) => if s.len() <= l {
            s
        } else {
            s.take(l as int)
        },
    }
}

// ---------------------------------------------------------------------------
// Stage 6a: remove small items
// ---------------------------------------------------------------------------

/// Clears an optional size that lies below the threshold.
pub open spec fn spec_clear_small(o: Option<usize>, h: usize) -> Option<usize> {
    match o {
        Some(p) => if p < h {
            None
        } else {
            Some(p)
        },
        None => None,
    }
}

/// The items at or above the threshold, in order.
pub open spec fn spec_keep_items(items: Seq<FieldOrPaddingV>, h: usize) -> Seq<FieldOrPaddingV>
    decreases items.len(),
{
    if items.len() == 0 {
        Seq::empty()
    } else {
        spec_keep_items(items.drop_last(), h) + if items.last().size() >= h {
            seq![items.last()]
        } else {
            Seq::empty()
        }
    }
}

/// Variant list with each variant's small items removed.
pub open spec fn spec_small_variants(vs: Seq<EnumVariantV>, h: usize) -> Seq<EnumVariantV> {
    Seq::new(
        vs.len(),
        |i: int| EnumVariantV { items: spec_keep_items(vs[i].items, h), ..vs[i] },
    )
}

/// Removing items, discriminants and end paddings below the threshold.
pub open spec fn spec_remove_small(t: TypeV, h: usize) -> TypeV {
    TypeV {
        end_padding: spec_clear_small(t.end_padding, h),
        kind: match t.kind {
            TypeKindV::Struct(s) => TypeKindV::Struct(
                StructTypeV { items: spec_keep_items(s.items, h) },
            ),
            TypeKindV::Enum(e) => TypeKindV::Enum(
                EnumTypeV {
                    discriminant_size: spec_clear_small(e.discriminant_size, h),
                    variants: spec_small_variants(e.variants, h),
                },
            ),
        },
        ..t
    }
}

fn keep_items(items: Vec<FieldOrPadding>, h: usize) -> (r: Vec<FieldOrPadding>)
    ensures
        r.deep_view() == spec_keep_items(items.deep_view(), h),
{
    let ghost orig = items.deep_view();
    let mut rest = items;
    let n = rest.len();
    assert(orig.len() == n);
    let mut out: Vec<FieldOrPadding> = Vec::new();
    let mut i: usize = 0;
    while rest.len() > 0
        invariant
            orig.len() <= usize::MAX,
            i + rest@.len() == orig.len(),
            rest.deep_view() =~= orig.skip(i as int),
            out.deep_view() =~= spec_keep_items(orig.take(i as int), h),
        decreases rest@.len(),
    {
        let ghost pre = rest.deep_view();
        let ghost prev: Seq<FieldOrPadding> = rest@;
        let it = rest.remove(0);
        proof {
            crate::schema::lemma_vec_deep_view(&rest);
            crate::schema::lemma_deep_seq_remove_front(prev);
            assert(pre =~= crate::schema::deep_seq(prev));
            assert(it.deep_view() == orig[i as int]);
            assert(rest.deep_view() =~= orig.skip(i as int + 1));
        }
        let ghost outpre = out.deep_view();
        let ghost outprev: Seq<FieldOrPadding> = out@;
        if it.size() >= h {
            out.push(it);
            proof {
                crate::schema::lemma_vec_deep_view(&out);
                crate::schema::lemma_deep_seq_push(outprev, out@.last());
                assert(outpre =~= crate::schema::deep_seq(outprev));
                assert(out.deep_view() =~= outpre.push(orig[i as int]));
            }
        }
        proof {
            assert(orig.take(i as int + 1).drop_last() =~= orig.take(i as int));
            assert(orig.take(i as int + 1).last() == orig[i as int]);
            assert(out.deep_view() =~= spec_keep_items(orig.take(i as int + 1), h));
        }
        i = i + 1;
    }
    proof {
        assert(orig.take(orig.len() as int) =~= orig);
    }
    out
}

fn clear_small(o: Option<usize>, h: usize) -> (r: Option<usize>)
    ensures
        r == spec_clear_small(o, h),
{
    match o {
        Some(p) => if p < h {
            None
        } else {
            Some(p)
        },
        None => None,
    }
}

/// Removes the fields and paddings smaller than `threshold`, and clears a
/// discriminant size or end padding below it.
pub fn remove_small_fields(t: Type, threshold: usize) -> (r: Type)
    ensures
        r.deep_view() == spec_remove_small(t.deep_view(), threshold),
{
    let ghost tv = t.deep_view();
    let Type { name, size, align, kind, end_padding } = t;
    let new_pad = clear_small(end_padding, threshold);
    let new_kind = match kind {
        TypeKind::Struct(s) => TypeKind::Struct(StructType { items: keep_items(s.items, threshold) }),
        TypeKind::Enum(e) => {
            let EnumType { discriminant_size, variants } = e;
            let ghost vs = variants.deep_view();
            let new_disc = clear_small(discriminant_size, threshold);
            let mut rest = variants;
            let n = rest.len();
            assert(vs.len() == n);
            let mut out: Vec<EnumVariant> = Vec::new();
            let mut i: usize = 0;
            while rest.len() > 0
                invariant
                    vs.len() <= usize::MAX,
                    i + rest@.len() == vs.len(),
                    rest.deep_view() =~= vs.skip(i as int),
                    out.deep_view() =~= spec_small_variants(vs, threshold).take(i as int),
                decreases rest@.len(),
            {
                let ghost pre = rest.deep_view();
                let ghost prev: Seq<EnumVariant> = rest@;
                let v = rest.remove(0);
                proof {
                    crate::schema::lemma_vec_deep_view(&rest);
                    crate::schema::lemma_deep_seq_remove_front(prev);
                    assert(pre =~= crate::schema::deep_seq(prev));
                    assert(v.deep_view() == vs[i as int]);
                    assert(rest.deep_view() =~= vs.skip(i as int + 1));
                }
                let EnumVariant { name: vname, size: vsize, items: vitems } = v;
                let new_items = keep_items(vitems, threshold);
                let nv = EnumVariant { name: vname, size: vsize, items: new_items };
                let ghost outpre = out.deep_view();
                let ghost outprev: Seq<EnumVariant> = out@;
                out.push(nv);
                proof {
                    assert(nv.deep_view() == spec_small_variants(vs, threshold)[i as int]);
                    crate::schema::lemma_vec_deep_view(&out);
                    crate::schema::lemma_deep_seq_push(outprev, out@.last());
                    assert(outpre =~= crate::schema::deep_seq(outprev));
                    assert(out.deep_view() =~= outpre.push(nv.deep_view()));
                    assert(out.deep_view() =~= spec_small_variants(vs, threshold).take(i as int + 1));
                }
                i = i + 1;
            }
            proof {
                assert(spec_small_variants(vs, threshold).take(vs.len() as int) =~= spec_small_variants(
                    vs,
                    threshold,
                ));
            }
            TypeKind::Enum(EnumType { discriminant_size: new_disc, variants: out })
        },
    };
    let r = Type { name, size, align, kind: new_kind, end_padding: new_pad };
    proof {
        assert(r.deep_view() =~= spec_remove_small(tv, threshold));
    }
    r
}

// ---------------------------------------------------------------------------
// Stage 6b: sort fields, strip paddings
// ---------------------------------------------------------------------------

/// Only the fields of the list, paddings dropped, in order.
pub open spec fn spec_strip_paddings(items: Seq<FieldOrPaddingV>) -> Seq<FieldOrPaddingV>
    decreases items.len(),
{
    if items.len() == 0 {
        Seq::empty()
    } else {
        spec_strip_paddings(items.drop_last()) + if items.last() is Field {
            seq![items.last()]
        } else {
            Seq::empty()
        }
    }
}

/// Strictly before in the item order: larger sizes first.
pub open spec fn spec_item_lt(a: FieldOrPaddingV, b: FieldOrPaddingV) -> bool {
    a.size() > b.size()
}

/// Stable insertion of an item into a list sorted by descending size.
pub open spec fn spec_insert_item(x: FieldOrPaddingV, s: Seq<FieldOrPaddingV>) -> Seq<
    FieldOrPaddingV,
>
    decreases s.len(),
{
    if s.len() == 0 {
        seq![x]
    } else if spec_item_lt(x, s[0]) {
        seq![x] + s
    } else {
        seq![s[0]] + spec_insert_item(x, s.drop_first())
    }
}

/// Stable insertion sort of items by descending size.
pub open spec fn spec_sort_items(s: Seq<FieldOrPaddingV>) -> Seq<FieldOrPaddingV>
    decreases s.len(),
{
    if s.len() == 0 {
        Seq::empty()
    } else {
        spec_insert_item(s.last(), spec_sort_items(s.drop_last()))
    }
}

pub(crate) proof fn lemma_insert_item_position(x: FieldOrPaddingV, s: Seq<FieldOrPaddingV>, k: int)
    requires
        0 <= k <= s.len(),
        forall|j: int| 0 <= j < k ==> !spec_item_lt(x, s[j]),
        k < s.len() ==> spec_item_lt(x, s[k]),
    ensures
        spec_insert_item(x, s) == s.insert(k, x),
    decreases s.len(),
{
    if s.len() == 0 {
        assert(spec_insert_item(x, s) =~= s.insert(0, x));
    } else if k == 0 {
        assert(spec_item_lt(x, s[0]));
        assert(seq![x] + s =~= s.insert(0, x));
    } else {
        assert(!spec_item_lt(x, s[0]));
        lemma_insert_item_position(x, s.drop_first(), k - 1);
        assert(seq![s[0]] + s.drop_first().insert(k - 1, x) =~= s.insert(k, x));
    }
}

fn insert_item_sorted(out: &mut Vec<FieldOrPadding>, x: FieldOrPadding)
    ensures
        final(out).deep_view() == spec_insert_item(x.deep_view(), old(out).deep_view()),
{
    let ghost s = out.deep_view();
    let ghost xv = x.deep_view();
    let xsize = x.size();
    let mut k: usize = 0;
    loop
        invariant_except_break
            s == out.deep_view(),
            out@.len() == s.len(),
            xv == x.deep_view(),
            xsize == xv.size(),
            k <= s.len(),
            forall|j: int| 0 <= j < k ==> !spec_item_lt(xv, s[j]),
        ensures
            s == out.deep_view(),
            xv == x.deep_view(),
            k <= s.len(),
            forall|j: int| 0 <= j < k ==> !spec_item_lt(xv, s[j]),
            k < s.len() ==> spec_item_lt(xv, s[k as int]),
        decreases s.len() - k,
    {
        if k == out.len() {
            break;
        }
        let osize = out[k].size();
        proof {
            crate::schema::lemma_deep_view_index(out, k as int);
        }
        if xsize > osize {
            break;
        }
        k = k + 1;
    }
    proof {
        lemma_insert_item_position(xv, s, k as int);
    }
    let ghost prev: Seq<FieldOrPadding> = out@;
    out.insert(k, x);
    proof {
        crate::schema::lemma_vec_deep_view(&out);
        crate::schema::lemma_deep_seq_insert(prev, k as int, out@[k as int]);
        assert(s =~= crate::schema::deep_seq(prev));
        assert(out.deep_view() =~= s.insert(k as int, xv));
    }
}

fn sort_items(items: Vec<FieldOrPadding>) -> (r: Vec<FieldOrPadding>)
    ensures
        r.deep_view() == spec_sort_items(items.deep_view()),
{
    let ghost orig = items.deep_view();
    let mut rest = items;
    let n = rest.len();
    assert(orig.len() == n);
    let mut out: Vec<FieldOrPadding> = Vec::new();
    let mut i: usize = 0;
    while rest.len() > 0
        invariant
            orig.len() <= usize::MAX,
            i + rest@.len() == orig.len(),
            rest.deep_view() =~= orig.skip(i as int),
            out.deep_view() =~= spec_sort_items(orig.take(i as int)),
        decreases rest@.len(),
    {
        let ghost pre = rest.deep_view();
        let ghost prev: Seq<FieldOrPadding> = rest@;
        let x = rest.remove(0);
        proof {
            crate::schema::lemma_vec_deep_view(&rest);
            crate::schema::lemma_deep_seq_remove_front(prev);
            assert(pre =~= crate::schema::deep_seq(prev));
            assert(x.deep_view() == orig[i as int]);
            assert(rest.deep_view() =~= orig.skip(i as int + 1));
        }
        insert_item_sorted(&mut out, x);
        proof {
            assert(orig.take(i as int + 1).drop_last() =~= orig.take(i as int));
            assert(orig.take(i as int + 1).last() == orig[i as int]);
            assert(out.deep_view() =~= spec_sort_items(orig.take(i as int + 1)));
        }
        i = i + 1;
    }
    proof {
        assert(orig.take(orig.len() as int) =~= orig);
    }
    out
}

fn strip_paddings(items: Vec<FieldOrPadding>) -> (r: Vec<FieldOrPadding>)
    ensures
        r.deep_view() == spec_strip_paddings(items.deep_view()),
{
    let ghost orig = items.deep_view();
    let mut rest = items;
    let n = rest.len();
    assert(orig.len() == n);
    let mut out: Vec<FieldOrPadding> = Vec::new();
    let mut i: usize = 0;
    while rest.len() > 0
        invariant
            orig.len() <= usize::MAX,
            i + rest@.len() == orig.len(),
            rest.deep_view() =~= orig.skip(i as int),
            out.deep_view() =~= spec_strip_paddings(orig.take(i as int)),
        decreases rest@.len(),
    {
        let ghost pre = rest.deep_view();
        let ghost prev: Seq<FieldOrPadding> = rest@;
        let it = rest.remove(0);
        proof {
            crate::schema::lemma_vec_deep_view(&rest);
            crate::schema::lemma_deep_seq_remove_front(prev);
            assert(pre =~= crate::schema::deep_seq(prev));
            assert(it.deep_view() == orig[i as int]);
            assert(rest.deep_view() =~= orig.skip(i as int + 1));
        }
        let ghost outpre = out.deep_view();
        let ghost outprev: Seq<FieldOrPadding> = out@;
        let is_field = match &it {
            FieldOrPadding::Field(_) => true,
            FieldOrPadding::Padding(_) => false,
        };
        if is_field {
            out.push(it);
            proof {
                crate::schema::lemma_vec_deep_view(&out);
                crate::schema::lemma_deep_seq_push(outprev, out@.last());
                assert(outpre =~= crate::schema::deep_seq(outprev));
                assert(out.deep_view() =~= outpre.push(orig[i as int]));
            }
        }
        proof {
            assert(orig.take(i as int + 1).drop_last() =~= orig.take(i as int));
            assert(orig.take(i as int + 1).last() == orig[i as int]);
            assert(out.deep_view() =~= spec_strip_paddings(orig.take(i as int + 1)));
        }
        i = i + 1;
    }
    proof {
        assert(orig.take(orig.len() as int) =~= orig);
    }
    out
}

/// Variant list with each variant's items stripped of paddings and sorted.
pub open spec fn spec_sortf_variants(vs: Seq<EnumVariantV>) -> Seq<EnumVariantV> {
    Seq::new(
        vs.len(),
        |i: int| EnumVariantV { items: spec_sort_items(spec_strip_paddings(vs[i].items)), ..vs[i] },
    )
}

/// Sorting fields by descending size and stripping paddings, clearing the end
/// padding.
pub open spec fn spec_sortf(t: TypeV) -> TypeV {
    TypeV {
        end_padding: None,
        kind: match t.kind {
            TypeKindV::Struct(s) => TypeKindV::Struct(
                StructTypeV { items: spec_sort_items(spec_strip_paddings(s.items)) },
            ),
            TypeKindV::Enum(e) => TypeKindV::Enum(
                EnumTypeV { discriminant_size: e.discriminant_size, variants: spec_sortf_variants(e.variants) },
            ),
        },
        ..t
    }
}

/// Sorts each item list by descending size, drops paddings, and clears the
/// end padding.
pub fn sort_fields_and_remove_paddings(t: Type) -> (r: Type)
    ensures
        r.deep_view() == spec_sortf(t.deep_view()),
{
    let ghost tv = t.deep_view();
    let Type { name, size, align, kind, end_padding: _ } = t;
    let new_kind = match kind {
        TypeKind::Struct(s) => TypeKind::Struct(
            StructType { items: sort_items(strip_paddings(s.items)) },
        ),
        TypeKind::Enum(e) => {
            let EnumType { discriminant_size, variants } = e;
            let ghost vs = variants.deep_view();
            let mut rest = variants;
            let n = rest.len();
            assert(vs.len() == n);
            let mut out: Vec<EnumVariant> = Vec::new();
            let mut i: usize = 0;
            while rest.len() > 0
                invariant
                    vs.len() <= usize::MAX,
                    i + rest@.len() == vs.len(),
                    rest.deep_view() =~= vs.skip(i as int),
                    out.deep_view() =~= spec_sortf_variants(vs).take(i as int),
                decreases rest@.len(),
            {
                let ghost pre = rest.deep_view();
                let ghost prev: Seq<EnumVariant> = rest@;
                let v = rest.remove(0);
                proof {
                    crate::schema::lemma_vec_deep_view(&rest);
                    crate::schema::lemma_deep_seq_remove_front(prev);
                    assert(pre =~= crate::schema::deep_seq(prev));
                    assert(v.deep_view() == vs[i as int]);
                    assert(rest.deep_view() =~= vs.skip(i as int + 1));
                }
                let EnumVariant { name: vname, size: vsize, items: vitems } = v;
                let nv = EnumVariant {
                    name: vname,
                    size: vsize,
                    items: sort_items(strip_paddings(vitems)),
                };
                let ghost outpre = out.deep_view();
                let ghost outprev: Seq<EnumVariant> = out@;
                out.push(nv);
                proof {
                    assert(nv.deep_view() == spec_sortf_variants(vs)[i as int]);
                    crate::schema::lemma_vec_deep_view(&out);
                    crate::schema::lemma_deep_seq_push(outprev, out@.last());
                    assert(outpre =~= crate::schema::deep_seq(outprev));
                    assert(out.deep_view() =~= outpre.push(nv.deep_view()));
                    assert(out.deep_view() =~= spec_sortf_variants(vs).take(i as int + 1));
                }
                i = i + 1;
            }
            proof {
                assert(spec_sortf_variants(vs).take(vs.len() as int) =~= spec_sortf_variants(vs));
            }
            TypeKind::Enum(EnumType { discriminant_size, variants: out })
        },
    };
    let r = Type { name, size, align, kind: new_kind, end_padding: None };
    proof {
        assert(r.deep_view() =~= spec_sortf(tv));
    }
    r
}

// ---------------------------------------------------------------------------
// Stage 6c: merge equivalent enum variants
// ---------------------------------------------------------------------------

/// Index of the first collected variant with the same size and item-for-item
/// equal items, or -1 when there is none.
pub open spec fn spec_first_match(acc: Seq<EnumVariantV>, v: EnumVariantV) -> int
    decreases acc.len(),
{
    if acc.len() == 0 {
        -1
    } else if acc[0].size == v.size && acc[0].items == v.items {
        0
    } else {
        let r = spec_first_match(acc.drop_first(), v);
        if r < 0 {
            -1
        } else {
            r + 1
        }
    }
}

/// Merging one variant into the collected list: its name joins the first
/// variant with the same layout, comma-separated, or it is appended.
pub open spec fn spec_merge_into(acc: Seq<EnumVariantV>, v: EnumVariantV) -> Seq<EnumVariantV> {
    let j = spec_first_match(acc, v);
    if j < 0 {
        acc.push(v)
    } else {
        acc.update(j, EnumVariantV { name: acc[j].name + seq![44u8, 32u8] + v.name, ..acc[j] })
    }
}

/// Merging a whole variant list, left to right.
pub open spec fn spec_merge_list(vs: Seq<EnumVariantV>) -> Seq<EnumVariantV>
    decreases vs.len(),
{
    if vs.len() == 0 {
        Seq::empty()
    } else {
        spec_merge_into(spec_merge_list(vs.drop_last()), vs.last())
    }
}

/// Strictly before in the variant order: larger sizes first.
pub open spec fn spec_variant_lt(a: EnumVariantV, b: EnumVariantV) -> bool {
    a.size > b.size
}

/// Stable insertion of a variant into a list sorted by descending size.
pub open spec fn spec_insert_variant(x: EnumVariantV, s: Seq<EnumVariantV>) -> Seq<EnumVariantV>
    decreases s.len(),
{
    if s.len() == 0 {
        seq![x]
    } else if spec_variant_lt(x, s[0]) {
        seq![x] + s
    } else {
        seq![s[0]] + spec_insert_variant(x, s.drop_first())
    }
}

/// Stable insertion sort of variants by descending size.
pub open spec fn spec_sort_variants(s: Seq<EnumVariantV>) -> Seq<EnumVariantV>
    decreases s.len(),
{
    if s.len() == 0 {
        Seq::empty()
    } else {
        spec_insert_variant(s.last(), spec_sort_variants(s.drop_last()))
    }
}

/// Merging and re-sorting an enum's variants; any other type is unchanged.
pub open spec fn spec_sort_and_merge(t: TypeV) -> TypeV {
    match t.kind {
        TypeKindV::Struct(_) => t,
        TypeKindV::Enum(e) => TypeV {
            kind: TypeKindV::Enum(
                EnumTypeV {
                    discriminant_size: e.discriminant_size,
                    variants: spec_sort_variants(spec_merge_list(e.variants)),
                },
            ),
            ..t
        },
    }
}

pub(crate) proof fn lemma_first_match_at(acc: Seq<EnumVariantV>, v: EnumVariantV, k: int)
    requires
        0 <= k <= acc.len(),
        forall|j: int|
            0 <= j < k ==> !(acc[j].size == v.size && acc[j].items == v.items),
        k < acc.len() ==> acc[k].size == v.size && acc[k].items == v.items,
    ensures
        spec_first_match(acc, v) == if k == acc.len() {
            -1
        } else {
            k
        },
    decreases acc.len(),
{
    if acc.len() == 0 {
    } else if k == 0 {
    } else {
        assert(!(acc[0].size == v.size && acc[0].items == v.items));
        lemma_first_match_at(acc.drop_first(), v, k - 1);
    }
}

pub(crate) proof fn lemma_insert_variant_position(x: EnumVariantV, s: Seq<EnumVariantV>, k: int)
    requires
        0 <= k <= s.len(),
        forall|j: int| 0 <= j < k ==> !spec_variant_lt(x, s[j]),
        k < s.len() ==> spec_variant_lt(x, s[k]),
    ensures
        spec_insert_variant(x, s) == s.insert(k, x),
    decreases s.len(),
{
    if s.len() == 0 {
        assert(spec_insert_variant(x, s) =~= s.insert(0, x));
    } else if k == 0 {
        assert(spec_variant_lt(x, s[0]));
        assert(seq![x] + s =~= s.insert(0, x));
    } else {
        assert(!spec_variant_lt(x, s[0]));
        lemma_insert_variant_position(x, s.drop_first(), k - 1);
        assert(seq![s[0]] + s.drop_first().insert(k - 1, x) =~= s.insert(k, x));
    }
}

fn merge_push(out: &mut Vec<EnumVariant>, v: EnumVariant)
    ensures
        final(out).deep_view() == spec_merge_into(old(out).deep_view(), v.deep_view()),
{
    let ghost acc = out.deep_view();
    let ghost vv = v.deep_view();
    let mut k: usize = 0;
    loop
        invariant_except_break
            acc == out.deep_view(),
            out@.len() == acc.len(),
            vv == v.deep_view(),
            k <= acc.len(),
            forall|j: int|
                0 <= j < k ==> !(acc[j].size == vv.size && acc[j].items == vv.items),
        ensures
            acc == out.deep_view(),
            vv == v.deep_view(),
            k <= acc.len(),
            forall|j: int|
                0 <= j < k ==> !(acc[j].size == vv.size && acc[j].items == vv.items),
            k < acc.len() ==> acc[k as int].size == vv.size && acc[k as int].items == vv.items,
        decreases acc.len() - k,
    {
        if k == out.len() {
            break;
        }
        let same_size = out[k].size == v.size;
        let same_items = if same_size {
            items_eq(&out[k].items, &v.items)
        } else {
            false
        };
        proof {
            crate::schema::lemma_deep_view_index(out, k as int);
        }
        if same_size && same_items {
            break;
        }
        k = k + 1;
    }
    proof {
        lemma_first_match_at(acc, vv, k as int);
    }
    if k == out.len() {
        let ghost outprev: Seq<EnumVariant> = out@;
        out.push(v);
        proof {
            crate::schema::lemma_vec_deep_view(&out);
            crate::schema::lemma_deep_seq_push(outprev, out@.last());
            assert(acc =~= crate::schema::deep_seq(outprev));
            assert(out.deep_view() =~= acc.push(vv));
        }
    } else {
        let ghost outprev: Seq<EnumVariant> = out@;
        let ov = out.remove(k);
        proof {
            assert(ov == outprev[k as int]);
            assert(ov.deep_view() == acc[k as int]);
        }
        let EnumVariant { name: mut nm, size: osize, items: oitems } = ov;
        nm.push(44);
        nm.push(32);
        let mut vb = v.name;
        nm.append(&mut vb);
        let nv = EnumVariant { name: nm, size: osize, items: oitems };
        let ghost merged = EnumVariantV {
            name: acc[k as int].name + seq![44u8, 32u8] + vv.name,
            ..acc[k as int]
        };
        proof {
            assert(nv.deep_view().name =~= merged.name);
            assert(nv.deep_view() =~= merged);
        }
        let ghost mid: Seq<EnumVariant> = out@;
        out.insert(k, nv);
        proof {
            crate::schema::lemma_vec_deep_view(&out);
            crate::schema::lemma_deep_seq_remove(outprev, k as int);
            crate::schema::lemma_deep_seq_insert(mid, k as int, out@[k as int]);
            assert(acc =~= crate::schema::deep_seq(outprev));
            assert(out.deep_view() =~= acc.update(k as int, merged));
        }
    }
}

fn merge_list(variants: Vec<EnumVariant>) -> (r: Vec<EnumVariant>)
    ensures
        r.deep_view() == spec_merge_list(variants.deep_view()),
{
    let ghost orig = variants.deep_view();
    let mut rest = variants;
    let n = rest.len();
    assert(orig.len() == n);
    let mut out: Vec<EnumVariant> = Vec::new();
    let mut i: usize = 0;
    while rest.len() > 0
        invariant
            orig.len() <= usize::MAX,
            i + rest@.len() == orig.len(),
            rest.deep_view() =~= orig.skip(i as int),
            out.deep_view() =~= spec_merge_list(orig.take(i as int)),
        decreases rest@.len(),
    {
        let ghost pre = rest.deep_view();
        let ghost prev: Seq<EnumVariant> = rest@;
        let v = rest.remove(0);
        proof {
            crate::schema::lemma_vec_deep_view(&rest);
            crate::schema::lemma_deep_seq_remove_front(prev);
            assert(pre =~= crate::schema::deep_seq(prev));
            assert(v.deep_view() == orig[i as int]);
            assert(rest.deep_view() =~= orig.skip(i as int + 1));
        }
        merge_push(&mut out, v);
        proof {
            assert(orig.take(i as int + 1).drop_last() =~= orig.take(i as int));
            assert(orig.take(i as int + 1).last() == orig[i as int]);
            assert(out.deep_view() =~= spec_merge_list(orig.take(i as int + 1)));
        }
        i = i + 1;
    }
    proof {
        assert(orig.take(orig.len() as int) =~= orig);
    }
    out
}

fn insert_variant_sorted(out: &mut Vec<EnumVariant>, x: EnumVariant)
    ensures
        final(out).deep_view() == spec_insert_variant(x.deep_view(), old(out).deep_view()),
{
    let ghost s = out.deep_view();
    let ghost xv = x.deep_view();
    let mut k: usize = 0;
    loop
        invariant_except_break
            s == out.deep_view(),
            out@.len() == s.len(),
            xv == x.deep_view(),
            k <= s.len(),
            forall|j: int| 0 <= j < k ==> !spec_variant_lt(xv, s[j]),
        ensures
            s == out.deep_view(),
            xv == x.deep_view(),
            k <= s.len(),
            forall|j: int| 0 <= j < k ==> !spec_variant_lt(xv, s[j]),
            k < s.len() ==> spec_variant_lt(xv, s[k as int]),
        decreases s.len() - k,
    {
        if k == out.len() {
            break;
        }
        let osize = out[k].size;
        proof {
            crate::schema::lemma_deep_view_index(out, k as int);
        }
        if x.size > osize {
            break;
        }
        k = k + 1;
    }
    proof {
        lemma_insert_variant_position(xv, s, k as int);
    }
    let ghost prev: Seq<EnumVariant> = out@;
    out.insert(k, x);
    proof {
        crate::schema::lemma_vec_deep_view(&out);
        crate::schema::lemma_deep_seq_insert(prev, k as int, out@[k as int]);
        assert(s =~= crate::schema::deep_seq(prev));
        assert(out.deep_view() =~= s.insert(k as int, xv));
    }
}

fn sort_variants(variants: Vec<EnumVariant>) -> (r: Vec<EnumVariant>)
    ensures
        r.deep_view() == spec_sort_variants(variants.deep_view()),
{
    let ghost orig = variants.deep_view();
    let mut rest = variants;
    let n = rest.len();
    assert(orig.len() == n);
    let mut out: Vec<EnumVariant> = Vec::new();
    let mut i: usize = 0;
    while rest.len() > 0
        invariant
            orig.len() <= usize::MAX,
            i + rest@.len() == orig.len(),
            rest.deep_view() =~= orig.skip(i as int),
            out.deep_view() =~= spec_sort_variants(orig.take(i as int)),
        decreases rest@.len(),
    {
        let ghost pre = rest.deep_view();
        let ghost prev: Seq<EnumVariant> = rest@;
        let v = rest.remove(0);
        proof {
            crate::schema::lemma_vec_deep_view(&rest);
            crate::schema::lemma_deep_seq_remove_front(prev);
            assert(pre =~= crate::schema::deep_seq(prev));
            assert(v.deep_view() == orig[i as int]);
            assert(rest.deep_view() =~= orig.skip(i as int + 1));
        }
        insert_variant_sorted(&mut out, v);
        proof {
            assert(orig.take(i as int + 1).drop_last() =~= orig.take(i as int));
            assert(orig.take(i as int + 1).last() == orig[i as int]);
            assert(out.deep_view() =~= spec_sort_variants(orig.take(i as int + 1)));
        }
        i = i + 1;
    }
    proof {
        assert(orig.take(orig.len() as int) =~= orig);
    }
    out
}

/// Merges an enum's variants with equal size and equal items into one,
/// comma-joining their names in first-seen order, and re-sorts the variants
/// by descending size.
pub fn sort_and_merge_variants(t: Type) -> (r: Type)
    ensures
        r.deep_view() == spec_sort_and_merge(t.deep_view()),
{
    let ghost tv = t.deep_view();
    let Type { name, size, align, kind, end_padding } = t;
    match kind {
        TypeKind::Struct(s) => {
            let r = Type { name, size, align, kind: TypeKind::Struct(s), end_padding };
            proof {
                assert(r.deep_view() =~= tv);
            }
            r
        },
        TypeKind::Enum(e) => {
            let EnumType { discriminant_size, variants } = e;
            let merged = merge_list(variants);
            let sorted = sort_variants(merged);
            let r = Type {
                name,
                size,
                align,
                kind: TypeKind::Enum(EnumType { discriminant_size, variants: sorted }),
                end_padding,
            };
            proof {
                assert(r.deep_view() =~= spec_sort_and_merge(tv));
            }
            r
        },
    }
}

// ---------------------------------------------------------------------------
// The pipeline
// ---------------------------------------------------------------------------

/// The per-type refinement: small items removed when a threshold is set, item
/// lists sorted and paddings stripped when configured, variants merged.
pub open spec fn spec_refine(t: TypeV, o: OptionsV) -> TypeV {
    let a = match o.hide_less {
        Some(h) => spec_remove_small(t, h),
        None => t,
    };
    let b = if o.sort_fields {
        spec_sortf(a)
    } else {
        a
    };
    spec_sort_and_merge(b)
}

/// The whole pipeline: filter, stable sort, dedup, expand, truncate, then
/// per-type refinement.
pub open spec fn spec_transform(s: Seq<TypeV>, o: OptionsV) -> Seq<TypeV> {
    let kept = spec_filter_types(s, o);
    let sorted = spec_sort_types(kept);
    let deduped = spec_dedup_types(sorted);
    let expanded = spec_expand(deduped, o.expand, o.expand_by_size);
    let truncated = spec_truncate(expanded, o.limit);
    Seq::new(truncated.len(), |i: int| spec_refine(truncated[i], o))
}

/// Runs the pipeline over the parsed types.  The result is the pipeline's
/// mathematical statement applied to the input, and in particular sorted:
/// sizes never grow along it, names ascend among equal sizes.
pub fn transform(types: Vec<Type>, options: &Options) -> (r: Vec<Type>)
    ensures
        r.deep_view() == spec_transform(types.deep_view(), options.deep_view()),
        crate::laws::spec_sorted_types(r.deep_view()),
{
    proof {
        crate::laws::lemma_transform_sorted(types.deep_view(), options.deep_view());
    }
    let ghost ov = options.deep_view();
    let ghost s0 = types.deep_view();
    let kept = filter_types(types, options);
    let sorted = sort_types(kept);
    let deduped = dedup_types(sorted);
    let mut ts = expand(deduped, &options.expand, options.expand_by_size);
    proof {
        assert(options.expand.deep_view() == ov.expand);
        assert(ts.deep_view() == spec_expand(
            spec_dedup_types(spec_sort_types(spec_filter_types(s0, ov))),
            ov.expand,
            ov.expand_by_size,
        ));
    }
    let ghost expanded = ts.deep_view();
    if let Some(limit) = options.limit {
        let ghost tsprev: Seq<Type> = ts@;
        ts.truncate(limit);
        proof {
            if limit <= tsprev.len() {
                assert forall|j: int| 0 <= j < ts@.len() implies #[trigger] ts.deep_view()[j]
                    == expanded.take(limit as int)[j] by {
                    assert(ts.deep_view()[j] == ts@[j].deep_view());
                    assert(ts@[j] == tsprev[j]);
                    assert(expanded[j] == tsprev[j].deep_view());
                }
                assert(ts.deep_view() =~= expanded.take(limit as int));
                if expanded.len() <= limit {
                    assert(expanded.take(limit as int) =~= expanded);
                }
            } else {
                assert(ts@ == tsprev);
            }
            assert(ts.deep_view() == spec_truncate(expanded, ov.limit));
        }
    }
    proof {
        assert(ts.deep_view() == spec_truncate(expanded, ov.limit));
    }
    let ghost trunc = ts.deep_view();
    let ghost target = Seq::new(trunc.len(), |i: int| spec_refine(trunc[i], ov));
    let mut rest = ts;
    let n = rest.len();
    assert(trunc.len() == n);
    let mut out: Vec<Type> = Vec::new();
    let mut i: usize = 0;
    while rest.len() > 0
        invariant
            ov == options.deep_view(),
            trunc.len() <= usize::MAX,
            i + rest@.len() == trunc.len(),
            rest.deep_view() =~= trunc.skip(i as int),
            target == Seq::new(trunc.len(), |k: int| spec_refine(trunc[k], ov)),
            out.deep_view() =~= target.take(i as int),
        decreases rest@.len(),
    {
        let ghost pre = rest.deep_view();
        let ghost prev: Seq<Type> = rest@;
        let t = rest.remove(0);
        proof {
            crate::schema::lemma_vec_deep_view(&rest);
            crate::schema::lemma_deep_seq_remove_front(prev);
            assert(pre =~= crate::schema::deep_seq(prev));
            assert(t.deep_view() == trunc[i as int]);
            assert(rest.deep_view() =~= trunc.skip(i as int + 1));
        }
        let a = match options.hide_less {
            Some(h) => remove_small_fields(t, h),
            None => t,
        };
        let b = if options.sort_fields {
            sort_fields_and_remove_paddings(a)
        } else {
            a
        };
        let c = sort_and_merge_variants(b);
        proof {
            assert(c.deep_view() == spec_refine(trunc[i as int], ov));
            assert(c.deep_view() == target[i as int]);
        }
        let ghost outpre = out.deep_view();
        let ghost outprev: Seq<Type> = out@;
        out.push(c);
        proof {
            crate::schema::lemma_vec_deep_view(&out);
            crate::schema::lemma_deep_seq_push(outprev, out@.last());
            assert(outpre =~= crate::schema::deep_seq(outprev));
            assert(out.deep_view() =~= outpre.push(target[i as int]));
            assert(out.deep_view() =~= target.take(i as int + 1));
        }
        i = i + 1;
    }
    proof {
        assert(target.take(target.len() as int) =~= target);
        assert(out.deep_view() == spec_transform(s0, ov));
    }
    out
}

} // verus!
