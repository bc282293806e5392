//! Proved properties of the pipeline that relate several stages: the order
//! of the transformer's output, and the absence of adjacent duplicates after
//! deduplication.

use vstd::prelude::*;
use crate::options::OptionsV;
use crate::schema::{EnumVariantV, FieldOrPaddingV, TypeKindV, TypeV};
use crate::transformer::{
    spec_dedup_types, spec_expand, spec_expand_from, spec_filter_types, spec_first_match,
    spec_insert_type, spec_insert_variant, spec_lex_le, spec_merge_into, spec_merge_list,
    spec_keep_items, spec_refine, spec_remove_small, spec_sort_and_merge, spec_sort_types,
    spec_sort_variants, spec_sortf, spec_transform, spec_truncate, spec_type_le, spec_type_lt,
};

verus! {

/// Sorted in the pipeline order: sizes descending, names ascending among
/// equal sizes.
pub open spec fn spec_sorted_types(s: Seq<TypeV>) -> bool {
    forall|i: int| #![trigger s[i]] 0 <= i < s.len() - 1 ==> spec_type_le(s[i], s[i + 1])
}

/// No two adjacent entries are structurally equal.
pub open spec fn spec_no_adjacent_duplicates(s: Seq<TypeV>) -> bool {
    forall|i: int| #![trigger s[i]] 0 <= i < s.len() - 1 ==> s[i] != s[i + 1]
}

proof fn lemma_lex_le_total(a: Seq<u8>, b: Seq<u8>)
    ensures
        spec_lex_le(a, b) || spec_lex_le(b, a),
    decreases a.len(),
{
    if a.len() == 0 {
    } else if b.len() == 0 {
    } else if a[0] == b[0] {
        lemma_lex_le_total(a.drop_first(), b.drop_first());
    }
}

proof fn lemma_lex_le_trans(a: Seq<u8>, b: Seq<u8>, c: Seq<u8>)
    requires
        spec_lex_le(a, b),
        spec_lex_le(b, c),
    ensures
        spec_lex_le(a, c),
    decreases a.len(),
{
    if a.len() == 0 {
    } else {
        assert(b.len() > 0);
        assert(c.len() > 0);
        if a[0] == b[0] && b[0] == c[0] {
            lemma_lex_le_trans(a.drop_first(), b.drop_first(), c.drop_first());
        }
    }
}

proof fn lemma_type_le_total(a: TypeV, b: TypeV)
    ensures
        spec_type_le(a, b) || spec_type_le(b, a),
{
    lemma_lex_le_total(a.name, b.name);
}

proof fn lemma_type_le_trans(a: TypeV, b: TypeV, c: TypeV)
    requires
        spec_type_le(a, b),
        spec_type_le(b, c),
    ensures
        spec_type_le(a, c),
{
    if a.size == b.size && b.size == c.size {
        lemma_lex_le_trans(a.name, b.name, c.name);
    }
}

/// In a sorted sequence every earlier entry sorts at or before every later
/// one.
proof fn lemma_sorted_pairwise(s: Seq<TypeV>, i: int, j: int)
    requires
        spec_sorted_types(s),
        0 <= i <= j < s.len(),
    ensures
        spec_type_le(s[i], s[j]),
    decreases j - i,
{
    if i < j {
        lemma_sorted_pairwise(s, i, j - 1);
        assert(spec_type_le(s[j - 1], s[j]));
        lemma_type_le_trans(s[i], s[j - 1], s[j]);
    } else {
        lemma_type_le_total(s[i], s[i]);
    }
}

proof fn lemma_insert_type_sorted(t: TypeV, s: Seq<TypeV>)
    requires
        spec_sorted_types(s),
    ensures
        spec_sorted_types(spec_insert_type(t, s)),
    decreases s.len(),
{
    let r = spec_insert_type(t, s);
    if s.len() == 0 {
    } else if spec_type_lt(t, s[0]) {
        assert forall|i: int| #![trigger r[i]] 0 <= i < r.len() - 1 implies spec_type_le(r[i], r[i + 1]) by {
            if i == 0 {
                assert(r[0] == t);
                assert(r[1] == s[0]);
            } else {
                assert(r[i] == s[i - 1]);
                assert(r[i + 1] == s[i]);
            }
        }
    } else {
        assert(spec_sorted_types(s.drop_first())) by {
            assert forall|i: int| #![trigger s.drop_first()[i]]
                0 <= i < s.drop_first().len() - 1 implies spec_type_le(
                s.drop_first()[i],
                s.drop_first()[i + 1],
            ) by {
                assert(s.drop_first()[i] == s[i + 1]);
                assert(s.drop_first()[i + 1] == s[i + 2]);
            }
        }
        lemma_insert_type_sorted(t, s.drop_first());
        lemma_type_le_total(t, s[0]);
        let inner = spec_insert_type(t, s.drop_first());
        assert(r == seq![s[0]] + inner);
        assert forall|i: int| #![trigger r[i]] 0 <= i < r.len() - 1 implies spec_type_le(r[i], r[i + 1]) by {
            if i == 0 {
                assert(r[0] == s[0]);
                assert(r[1] == inner[0]);
                if s.drop_first().len() == 0 {
                    assert(inner[0] == t);
                } else if spec_type_lt(t, s.drop_first()[0]) {
                    assert(inner[0] == t);
                } else {
                    assert(inner[0] == s.drop_first()[0]);
                    assert(spec_type_le(s[0], s[1]));
                }
            } else {
                assert(r[i] == inner[i - 1]);
                assert(r[i + 1] == inner[i]);
            }
        }
    }
}

/// The sort stage really sorts.
pub proof fn lemma_sort_types_sorted(s: Seq<TypeV>)
    ensures
        spec_sorted_types(spec_sort_types(s)),
    decreases s.len(),
{
    if s.len() > 0 {
        lemma_sort_types_sorted(s.drop_last());
        lemma_insert_type_sorted(s.last(), spec_sort_types(s.drop_last()));
    }
}

/// Deduplication keeps the order, the last entry, and leaves no adjacent
/// structural duplicates.
pub proof fn lemma_dedup_shape(s: Seq<TypeV>)
    ensures
        spec_no_adjacent_duplicates(spec_dedup_types(s)),
        spec_sorted_types(s) ==> spec_sorted_types(spec_dedup_types(s)),
        s.len() > 0 ==> spec_dedup_types(s).len() > 0 && spec_dedup_types(s).last() == s.last(),
        s.len() == 0 ==> spec_dedup_types(s).len() == 0,
    decreases s.len(),
{
    if s.len() > 0 {
        lemma_dedup_shape(s.drop_last());
        let r = spec_dedup_types(s.drop_last());
        let d = spec_dedup_types(s);
        if r.len() > 0 && r.last() == s.last() {
        } else {
            assert(d == r.push(s.last()));
            assert forall|i: int| #![trigger d[i]] 0 <= i < d.len() - 1 implies d[i] != d[i + 1] by {
                if i < r.len() - 1 {
                    assert(d[i] == r[i]);
                    assert(d[i + 1] == r[i + 1]);
                } else if i == r.len() - 1 {
                    assert(d[i] == r.last());
                    assert(d[i + 1] == s.last());
                }
            }
            if spec_sorted_types(s) {
                assert(spec_sorted_types(s.drop_last())) by {
                    assert forall|i: int| #![trigger s.drop_last()[i]]
                        0 <= i < s.drop_last().len() - 1 implies spec_type_le(
                        s.drop_last()[i],
                        s.drop_last()[i + 1],
                    ) by {
                        assert(s.drop_last()[i] == s[i]);
                        assert(s.drop_last()[i + 1] == s[i + 1]);
                    }
                }
                assert forall|i: int| #![trigger d[i]] 0 <= i < d.len() - 1 implies spec_type_le(d[i], d[i + 1]) by {
                    if i < r.len() - 1 {
                        assert(d[i] == r[i]);
                        assert(d[i + 1] == r[i + 1]);
                    } else if i == r.len() - 1 {
                        assert(d[i] == r.last());
                        assert(d[i + 1] == s.last());
                        if s.len() >= 2 {
                            assert(r.last() == s.drop_last().last());
                            assert(s.drop_last().last() == s[s.len() - 2]);
                            assert(spec_type_le(s[s.len() - 2], s[s.len() - 1]));
                        }
                    }
                }
            }
        }
        if spec_sorted_types(s) && r.len() > 0 && r.last() == s.last() {
            assert(spec_sorted_types(s.drop_last())) by {
                assert forall|i: int| #![trigger s.drop_last()[i]]
                    0 <= i < s.drop_last().len() - 1 implies spec_type_le(
                    s.drop_last()[i],
                    s.drop_last()[i + 1],
                ) by {
                    assert(s.drop_last()[i] == s[i]);
                    assert(s.drop_last()[i + 1] == s[i + 1]);
                }
            }
        }
    }
}

/// The expansion pass yields a sorted sequence whose head, if any, comes
/// from the tail of the input it scanned.
proof fn lemma_expand_from_sorted(
    s: Seq<TypeV>,
    i: int,
    names: Set<Seq<u8>>,
    sizes: Set<usize>,
    pats: Seq<Seq<char>>,
    use_size: bool,
)
    requires
        spec_sorted_types(s),
        0 <= i,
    ensures
        spec_sorted_types(spec_expand_from(s, i, names, sizes, pats, use_size)),
        spec_expand_from(s, i, names, sizes, pats, use_size).len() > 0 ==> exists|k: int|
            i <= k < s.len() && spec_expand_from(s, i, names, sizes, pats, use_size)[0] == s[k],
    decreases s.len() - i,
{
    let r = spec_expand_from(s, i, names, sizes, pats, use_size);
    if i < s.len() {
        let t = s[i];
        if names.contains(t.name) || sizes.contains(t.size) || crate::patterns::spec_any_match(
            pats,
            t.name,
        ) {
            let names2 = names.union(crate::transformer::spec_type_names(t));
            let sizes2 = if use_size {
                sizes.union(crate::transformer::spec_type_ref_sizes(t))
            } else {
                sizes
            };
            lemma_expand_from_sorted(s, i + 1, names2, sizes2, pats, use_size);
            let rest = spec_expand_from(s, i + 1, names2, sizes2, pats, use_size);
            assert(r == seq![t] + rest);
            assert forall|m: int| #![trigger r[m]] 0 <= m < r.len() - 1 implies spec_type_le(r[m], r[m + 1]) by {
                if m == 0 {
                    assert(r[0] == t);
                    assert(r[1] == rest[0]);
                    let k = choose|k: int| i + 1 <= k < s.len() && rest[0] == s[k];
                    lemma_sorted_pairwise(s, i, k);
                } else {
                    assert(r[m] == rest[m - 1]);
                    assert(r[m + 1] == rest[m]);
                }
            }
            assert(r[0] == s[i]);
        } else {
            lemma_expand_from_sorted(s, i + 1, names, sizes, pats, use_size);
        }
    }
}

/// Truncation of a sorted sequence stays sorted.
proof fn lemma_truncate_sorted(s: Seq<TypeV>, limit: Option<usize>)
    requires
        spec_sorted_types(s),
    ensures
        spec_sorted_types(spec_truncate(s, limit)),
{
    let r = spec_truncate(s, limit);
    assert forall|i: int| #![trigger r[i]] 0 <= i < r.len() - 1 implies spec_type_le(r[i], r[i + 1]) by {
        assert(r[i] == s[i]);
        assert(r[i + 1] == s[i + 1]);
    }
}

/// Refinement never changes a type's name or size.
pub proof fn lemma_refine_keeps_key(t: TypeV, o: OptionsV)
    ensures
        spec_refine(t, o).size == t.size,
        spec_refine(t, o).name == t.name,
{
}

/// The transformer's output is sorted: along it, sizes never grow, and among
/// equal sizes the names are in ascending order.
pub proof fn lemma_transform_sorted(s: Seq<TypeV>, o: OptionsV)
    ensures
        spec_sorted_types(spec_transform(s, o)),
{
    let kept = spec_filter_types(s, o);
    let sorted = spec_sort_types(kept);
    let deduped = spec_dedup_types(sorted);
    let expanded = spec_expand(deduped, o.expand, o.expand_by_size);
    let truncated = spec_truncate(expanded, o.limit);
    let r = spec_transform(s, o);
    lemma_sort_types_sorted(kept);
    lemma_dedup_shape(sorted);
    if o.expand.len() > 0 {
        lemma_expand_from_sorted(deduped, 0, Set::empty(), Set::empty(), o.expand,
            o.expand_by_size);
    }
    lemma_truncate_sorted(expanded, o.limit);
    assert forall|i: int| #![trigger r[i]] 0 <= i < r.len() - 1 implies spec_type_le(r[i], r[i + 1]) by {
        assert(r[i] == spec_refine(truncated[i], o));
        assert(r[i + 1] == spec_refine(truncated[i + 1], o));
        lemma_refine_keeps_key(truncated[i], o);
        lemma_refine_keeps_key(truncated[i + 1], o);
        assert(spec_type_le(truncated[i], truncated[i + 1]));
    }
}

/// After the dedup stage no two structurally equal types stand next to each
/// other.
pub proof fn lemma_dedup_no_adjacent_duplicates(s: Seq<TypeV>)
    ensures
        spec_no_adjacent_duplicates(spec_dedup_types(s)),
{
    lemma_dedup_shape(s);
}

// ---------------------------------------------------------------------------
// Idempotence of variant merging
// ---------------------------------------------------------------------------

/// Two variants the merge stage treats as one layout: equal size and
/// item-for-item equal items.
pub open spec fn spec_same_layout(a: EnumVariantV, b: EnumVariantV) -> bool {
    a.size == b.size && a.items == b.items
}

/// No two entries of the list share a layout.
pub open spec fn spec_distinct_layouts(z: Seq<EnumVariantV>) -> bool {
    forall|i: int, j: int|
        #![trigger z[i], z[j]]
        0 <= i < j < z.len() ==> !spec_same_layout(z[i], z[j])
}

/// Sizes never grow along the list.
pub open spec fn spec_variants_sorted(z: Seq<EnumVariantV>) -> bool {
    forall|i: int| #![trigger z[i]] 0 <= i < z.len() - 1 ==> z[i].size >= z[i + 1].size
}

proof fn lemma_first_match_props(acc: Seq<EnumVariantV>, v: EnumVariantV)
    ensures
        ({
            let j = spec_first_match(acc, v);
            &&& (j == -1 ==> forall|k: int|
                0 <= k < acc.len() ==> !spec_same_layout(#[trigger] acc[k], v))
            &&& (j != -1 ==> 0 <= j < acc.len() && spec_same_layout(acc[j], v))
        }),
    decreases acc.len(),
{
    if acc.len() == 0 {
    } else if acc[0].size == v.size && acc[0].items == v.items {
    } else {
        lemma_first_match_props(acc.drop_first(), v);
        let r = spec_first_match(acc.drop_first(), v);
        if r == -1 {
            assert forall|k: int| 0 <= k < acc.len() implies !spec_same_layout(
                #[trigger] acc[k],
                v,
            ) by {
                if k > 0 {
                    assert(acc.drop_first()[k - 1] == acc[k]);
                }
            }
        } else {
            assert(acc.drop_first()[r] == acc[r + 1]);
        }
    }
}

proof fn lemma_insert_variant_is_seq_insert(x: EnumVariantV, z: Seq<EnumVariantV>)
    ensures
        exists|k: int|
            0 <= k <= z.len() && spec_insert_variant(x, z) == #[trigger] z.insert(k, x),
    decreases z.len(),
{
    if z.len() == 0 {
        assert(spec_insert_variant(x, z) =~= z.insert(0, x));
    } else if crate::transformer::spec_variant_lt(x, z[0]) {
        assert(spec_insert_variant(x, z) =~= z.insert(0, x));
    } else {
        lemma_insert_variant_is_seq_insert(x, z.drop_first());
        let k = choose|k: int|
            0 <= k <= z.drop_first().len() && spec_insert_variant(x, z.drop_first())
                == #[trigger] z.drop_first().insert(k, x);
        assert(seq![z[0]] + z.drop_first().insert(k, x) =~= z.insert(k + 1, x));
    }
}

proof fn lemma_merge_into_distinct(acc: Seq<EnumVariantV>, v: EnumVariantV)
    requires
        spec_distinct_layouts(acc),
    ensures
        spec_distinct_layouts(spec_merge_into(acc, v)),
{
    lemma_first_match_props(acc, v);
    let j = spec_first_match(acc, v);
    let r = spec_merge_into(acc, v);
    if j == -1 {
        assert forall|a: int, b: int|
            #![trigger r[a], r[b]]
            0 <= a < b < r.len() implies !spec_same_layout(r[a], r[b]) by {
            if b < acc.len() {
                assert(r[a] == acc[a]);
                assert(r[b] == acc[b]);
            } else {
                assert(r[a] == acc[a]);
                assert(r[b] == v);
            }
        }
    } else {
        assert forall|a: int, b: int|
            #![trigger r[a], r[b]]
            0 <= a < b < r.len() implies !spec_same_layout(r[a], r[b]) by {
            assert(spec_same_layout(r[j], acc[j]));
            if a != j {
                assert(r[a] == acc[a]);
            }
            if b != j {
                assert(r[b] == acc[b]);
            }
        }
    }
}

proof fn lemma_merge_list_distinct(vs: Seq<EnumVariantV>)
    ensures
        spec_distinct_layouts(spec_merge_list(vs)),
    decreases vs.len(),
{
    if vs.len() == 0 {
        assert(spec_distinct_layouts(spec_merge_list(vs)));
    } else {
        lemma_merge_list_distinct(vs.drop_last());
        lemma_merge_into_distinct(spec_merge_list(vs.drop_last()), vs.last());
    }
}

proof fn lemma_merge_list_id(z: Seq<EnumVariantV>)
    requires
        spec_distinct_layouts(z),
    ensures
        spec_merge_list(z) == z,
    decreases z.len(),
{
    if z.len() > 0 {
        let dl = z.drop_last();
        assert(spec_distinct_layouts(dl)) by {
            assert forall|i: int, j: int|
                #![trigger dl[i], dl[j]]
                0 <= i < j < dl.len() implies !spec_same_layout(dl[i], dl[j]) by {
                assert(dl[i] == z[i]);
                assert(dl[j] == z[j]);
            }
        }
        lemma_merge_list_id(dl);
        assert forall|k: int| 0 <= k < dl.len() implies !(#[trigger] dl[k].size == z.last().size
            && dl[k].items == z.last().items) by {
            assert(dl[k] == z[k]);
            assert(!spec_same_layout(z[k], z[z.len() - 1]));
        }
        crate::transformer::lemma_first_match_at(dl, z.last(), dl.len() as int);
        assert(spec_merge_list(z) == dl.push(z.last()));
        assert(dl.push(z.last()) =~= z);
    }
}

proof fn lemma_insert_variant_keeps_sorted(x: EnumVariantV, z: Seq<EnumVariantV>)
    requires
        spec_variants_sorted(z),
    ensures
        spec_variants_sorted(spec_insert_variant(x, z)),
    decreases z.len(),
{
    let r = spec_insert_variant(x, z);
    if z.len() == 0 {
    } else if crate::transformer::spec_variant_lt(x, z[0]) {
        assert forall|i: int| #![trigger r[i]] 0 <= i < r.len() - 1 implies r[i].size >= r[i
            + 1].size by {
            if i == 0 {
                assert(r[0] == x);
                assert(r[1] == z[0]);
            } else {
                assert(r[i] == z[i - 1]);
                assert(r[i + 1] == z[i]);
            }
        }
    } else {
        assert(spec_variants_sorted(z.drop_first())) by {
            assert forall|i: int|
                #![trigger z.drop_first()[i]]
                0 <= i < z.drop_first().len() - 1 implies z.drop_first()[i].size
                >= z.drop_first()[i + 1].size by {
                assert(z.drop_first()[i] == z[i + 1]);
                assert(z.drop_first()[i + 1] == z[i + 2]);
            }
        }
        lemma_insert_variant_keeps_sorted(x, z.drop_first());
        let inner = spec_insert_variant(x, z.drop_first());
        assert(r == seq![z[0]] + inner);
        assert forall|i: int| #![trigger r[i]] 0 <= i < r.len() - 1 implies r[i].size >= r[i
            + 1].size by {
            if i == 0 {
                assert(r[0] == z[0]);
                assert(r[1] == inner[0]);
                if z.drop_first().len() == 0 {
                    assert(inner[0] == x);
                } else if crate::transformer::spec_variant_lt(x, z.drop_first()[0]) {
                    assert(inner[0] == x);
                } else {
                    assert(inner[0] == z.drop_first()[0]);
                    assert(z[0].size >= z[1].size);
                }
            } else {
                assert(r[i] == inner[i - 1]);
                assert(r[i + 1] == inner[i]);
            }
        }
    }
}

proof fn lemma_sort_variants_sorted(z: Seq<EnumVariantV>)
    ensures
        spec_variants_sorted(spec_sort_variants(z)),
    decreases z.len(),
{
    if z.len() > 0 {
        lemma_sort_variants_sorted(z.drop_last());
        lemma_insert_variant_keeps_sorted(z.last(), spec_sort_variants(z.drop_last()));
    }
}

proof fn lemma_variants_sorted_pairwise(z: Seq<EnumVariantV>, i: int, j: int)
    requires
        spec_variants_sorted(z),
        0 <= i <= j < z.len(),
    ensures
        z[i].size >= z[j].size,
    decreases j - i,
{
    if i < j {
        lemma_variants_sorted_pairwise(z, i, j - 1);
    }
}

proof fn lemma_sort_variants_id(z: Seq<EnumVariantV>)
    requires
        spec_variants_sorted(z),
    ensures
        spec_sort_variants(z) == z,
    decreases z.len(),
{
    if z.len() > 0 {
        let dl = z.drop_last();
        assert(spec_variants_sorted(dl)) by {
            assert forall|i: int|
                #![trigger dl[i]]
                0 <= i < dl.len() - 1 implies dl[i].size >= dl[i + 1].size by {
                assert(dl[i] == z[i]);
                assert(dl[i + 1] == z[i + 1]);
            }
        }
        lemma_sort_variants_id(dl);
        assert forall|k: int| 0 <= k < dl.len() implies !crate::transformer::spec_variant_lt(
            z.last(),
            #[trigger] dl[k],
        ) by {
            assert(dl[k] == z[k]);
            lemma_variants_sorted_pairwise(z, k, z.len() - 1);
        }
        crate::transformer::lemma_insert_variant_position(z.last(), dl, dl.len() as int);
        assert(spec_sort_variants(z) == dl.insert(dl.len() as int, z.last()));
        assert(dl.insert(dl.len() as int, z.last()) =~= z);
    }
}

proof fn lemma_sort_variants_keeps_distinct(z: Seq<EnumVariantV>)
    requires
        spec_distinct_layouts(z),
    ensures
        spec_distinct_layouts(spec_sort_variants(z)),
        spec_sort_variants(z).len() == z.len(),
        forall|m: int|
            0 <= m < z.len() ==> exists|k: int|
                0 <= k < z.len() && #[trigger] spec_sort_variants(z)[m] == z[k],
    decreases z.len(),
{
    if z.len() > 0 {
        let dl = z.drop_last();
        assert(spec_distinct_layouts(dl)) by {
            assert forall|i: int, j: int|
                #![trigger dl[i], dl[j]]
                0 <= i < j < dl.len() implies !spec_same_layout(dl[i], dl[j]) by {
                assert(dl[i] == z[i]);
                assert(dl[j] == z[j]);
            }
        }
        lemma_sort_variants_keeps_distinct(dl);
        let inner = spec_sort_variants(dl);
        lemma_insert_variant_is_seq_insert(z.last(), inner);
        let k0 = choose|k: int|
            0 <= k <= inner.len() && spec_insert_variant(z.last(), inner) == #[trigger]
                inner.insert(k, z.last());
        let r = spec_sort_variants(z);
        assert(r == inner.insert(k0, z.last()));
        assert forall|m: int| 0 <= m < z.len() implies exists|k: int|
            0 <= k < z.len() && #[trigger] r[m] == z[k] by {
            if m == k0 {
                assert(r[m] == z[z.len() - 1]);
            } else if m < k0 {
                assert(r[m] == inner[m]);
                let k = choose|k: int| 0 <= k < dl.len() && inner[m] == dl[k];
                assert(r[m] == z[k]);
            } else {
                assert(r[m] == inner[m - 1]);
                let k = choose|k: int| 0 <= k < dl.len() && inner[m - 1] == dl[k];
                assert(r[m] == z[k]);
            }
        }
        assert forall|a: int, b: int|
            #![trigger r[a], r[b]]
            0 <= a < b < r.len() implies !spec_same_layout(r[a], r[b]) by {
            if a == k0 {
                assert(r[b] == inner[b - 1]);
                let k = choose|k: int| 0 <= k < dl.len() && inner[b - 1] == dl[k];
                assert(!spec_same_layout(z[k], z[z.len() - 1]));
            } else if b == k0 {
                if a < k0 {
                    assert(r[a] == inner[a]);
                    let k = choose|k: int| 0 <= k < dl.len() && inner[a] == dl[k];
                    assert(!spec_same_layout(z[k], z[z.len() - 1]));
                }
            } else {
                let a2: int = if a < k0 {
                    a
                } else {
                    a - 1
                };
                let b2: int = if b < k0 {
                    b
                } else {
                    b - 1
                };
                assert(r[a] == inner[a2]);
                assert(r[b] == inner[b2]);
            }
        }
    }
}

/// Merging and re-sorting the variants is idempotent: a merged enum has
/// pairwise distinct variant layouts and size-sorted variants, so a second
/// pass changes nothing.
pub proof fn lemma_sort_and_merge_idempotent(t: TypeV)
    ensures
        spec_sort_and_merge(spec_sort_and_merge(t)) == spec_sort_and_merge(t),
{
    let w = spec_sort_and_merge(t);
    match t.kind {
        TypeKindV::Struct(_) => {
            assert(w == t);
        },
        TypeKindV::Enum(e) => {
            let merged = spec_merge_list(e.variants);
            let vars = spec_sort_variants(merged);
            lemma_merge_list_distinct(e.variants);
            lemma_sort_variants_keeps_distinct(merged);
            lemma_sort_variants_sorted(merged);
            lemma_merge_list_id(vars);
            lemma_sort_variants_id(vars);
            assert(spec_sort_and_merge(w) =~= w);
        },
    }
}

// ---------------------------------------------------------------------------
// Idempotence of the per-type refinement
// ---------------------------------------------------------------------------

/// Every item of the list has at least size `h`.
pub open spec fn spec_items_ge(items: Seq<FieldOrPaddingV>, h: usize) -> bool {
    forall|i: int| 0 <= i < items.len() ==> (#[trigger] items[i]).size() >= h
}

/// Nothing below the threshold is left anywhere in the type.
pub open spec fn spec_small_free(t: TypeV, h: usize) -> bool {
    &&& match t.end_padding {
        Some(p) => p >= h,
        None => true,
    }
    &&& match t.kind {
        TypeKindV::Struct(s) => spec_items_ge(s.items, h),
        TypeKindV::Enum(e) => {
            &&& match e.discriminant_size {
                Some(d) => d >= h,
                None => true,
            }
            &&& forall|i: int|
                0 <= i < e.variants.len() ==> spec_items_ge(
                    (#[trigger] e.variants[i]).items,
                    h,
                )
        },
    }
}

/// No padding items anywhere in the list.
pub open spec fn spec_fields_only(items: Seq<FieldOrPaddingV>) -> bool {
    forall|i: int| 0 <= i < items.len() ==> (#[trigger] items[i]) is Field
}

/// Item sizes never grow along the list.
pub open spec fn spec_items_sorted(items: Seq<FieldOrPaddingV>) -> bool {
    forall|i: int|
        #![trigger items[i]]
        0 <= i < items.len() - 1 ==> items[i].size() >= items[i + 1].size()
}

/// What the field-sorting stage leaves behind: no end padding, and each item
/// list padding-free and sorted by descending size.
pub open spec fn spec_tidy(t: TypeV) -> bool {
    &&& t.end_padding is None
    &&& match t.kind {
        TypeKindV::Struct(s) => spec_fields_only(s.items) && spec_items_sorted(s.items),
        TypeKindV::Enum(e) => forall|i: int|
            0 <= i < e.variants.len() ==> spec_fields_only((#[trigger] e.variants[i]).items)
                && spec_items_sorted(e.variants[i].items),
    }
}

proof fn lemma_keep_items_ge(items: Seq<FieldOrPaddingV>, h: usize)
    ensures
        spec_items_ge(spec_keep_items(items, h), h),
    decreases items.len(),
{
    if items.len() > 0 {
        lemma_keep_items_ge(items.drop_last(), h);
    }
}

proof fn lemma_keep_items_id(items: Seq<FieldOrPaddingV>, h: usize)
    requires
        spec_items_ge(items, h),
    ensures
        spec_keep_items(items, h) == items,
    decreases items.len(),
{
    if items.len() > 0 {
        let dl = items.drop_last();
        assert(spec_items_ge(dl, h)) by {
            assert forall|i: int| 0 <= i < dl.len() implies (#[trigger] dl[i]).size() >= h by {
                assert(dl[i] == items[i]);
            }
        }
        lemma_keep_items_id(dl, h);
        assert(items.last().size() >= h);
        assert(spec_keep_items(items, h) =~= items);
    }
}

proof fn lemma_remove_small_establishes(t: TypeV, h: usize)
    ensures
        spec_small_free(spec_remove_small(t, h), h),
{
    let r = spec_remove_small(t, h);
    match t.kind {
        TypeKindV::Struct(s) => {
            lemma_keep_items_ge(s.items, h);
        },
        TypeKindV::Enum(e) => {
            let rv = crate::transformer::spec_small_variants(e.variants, h);
            assert forall|i: int| 0 <= i < rv.len() implies spec_items_ge(
                (#[trigger] rv[i]).items,
                h,
            ) by {
                lemma_keep_items_ge(e.variants[i].items, h);
            }
        },
    }
}

proof fn lemma_remove_small_id(t: TypeV, h: usize)
    requires
        spec_small_free(t, h),
    ensures
        spec_remove_small(t, h) == t,
{
    match t.kind {
        TypeKindV::Struct(s) => {
            lemma_keep_items_id(s.items, h);
            assert(spec_remove_small(t, h) =~= t);
        },
        TypeKindV::Enum(e) => {
            let rv = crate::transformer::spec_small_variants(e.variants, h);
            assert forall|i: int| 0 <= i < rv.len() implies #[trigger] rv[i] == e.variants[i] by {
                lemma_keep_items_id(e.variants[i].items, h);
                assert(rv[i] =~= e.variants[i]);
            }
            assert(rv =~= e.variants);
            assert(spec_remove_small(t, h) =~= t);
        },
    }
}

proof fn lemma_insert_item_is_seq_insert(x: FieldOrPaddingV, z: Seq<FieldOrPaddingV>)
    ensures
        exists|k: int|
            0 <= k <= z.len() && crate::transformer::spec_insert_item(x, z) == #[trigger]
                z.insert(k, x),
    decreases z.len(),
{
    if z.len() == 0 {
        assert(crate::transformer::spec_insert_item(x, z) =~= z.insert(0, x));
    } else if crate::transformer::spec_item_lt(x, z[0]) {
        assert(crate::transformer::spec_insert_item(x, z) =~= z.insert(0, x));
    } else {
        lemma_insert_item_is_seq_insert(x, z.drop_first());
        let k = choose|k: int|
            0 <= k <= z.drop_first().len() && crate::transformer::spec_insert_item(
                x,
                z.drop_first(),
            ) == #[trigger] z.drop_first().insert(k, x);
        assert(seq![z[0]] + z.drop_first().insert(k, x) =~= z.insert(k + 1, x));
    }
}

/// The items of a sorted list are exactly the items that went in.
proof fn lemma_sort_items_elements(z: Seq<FieldOrPaddingV>)
    ensures
        crate::transformer::spec_sort_items(z).len() == z.len(),
        forall|m: int|
            0 <= m < z.len() ==> exists|k: int|
                0 <= k < z.len() && #[trigger] crate::transformer::spec_sort_items(z)[m] == z[k],
    decreases z.len(),
{
    if z.len() > 0 {
        let dl = z.drop_last();
        lemma_sort_items_elements(dl);
        let inner = crate::transformer::spec_sort_items(dl);
        lemma_insert_item_is_seq_insert(z.last(), inner);
        let k0 = choose|k: int|
            0 <= k <= inner.len() && crate::transformer::spec_insert_item(z.last(), inner)
                == #[trigger] inner.insert(k, z.last());
        let r = crate::transformer::spec_sort_items(z);
        assert(r == inner.insert(k0, z.last()));
        assert forall|m: int| 0 <= m < z.len() implies exists|k: int|
            0 <= k < z.len() && #[trigger] r[m] == z[k] by {
            if m == k0 {
                assert(r[m] == z[z.len() - 1]);
            } else if m < k0 {
                assert(r[m] == inner[m]);
                let k = choose|k: int| 0 <= k < dl.len() && inner[m] == dl[k];
                assert(r[m] == z[k]);
            } else {
                assert(r[m] == inner[m - 1]);
                let k = choose|k: int| 0 <= k < dl.len() && inner[m - 1] == dl[k];
                assert(r[m] == z[k]);
            }
        }
    }
}

proof fn lemma_strip_paddings_shape(z: Seq<FieldOrPaddingV>)
    ensures
        spec_fields_only(crate::transformer::spec_strip_paddings(z)),
        forall|m: int|
            0 <= m < crate::transformer::spec_strip_paddings(z).len() ==> exists|k: int|
                0 <= k < z.len() && #[trigger] crate::transformer::spec_strip_paddings(z)[m]
                    == z[k],
    decreases z.len(),
{
    if z.len() > 0 {
        lemma_strip_paddings_shape(z.drop_last());
        let dl = z.drop_last();
        let inner = crate::transformer::spec_strip_paddings(dl);
        let r = crate::transformer::spec_strip_paddings(z);
        assert forall|m: int| 0 <= m < r.len() implies exists|k: int|
            0 <= k < z.len() && #[trigger] r[m] == z[k] by {
            if m < inner.len() {
                assert(r[m] == inner[m]);
                let k = choose|k: int| 0 <= k < dl.len() && inner[m] == dl[k];
                assert(r[m] == z[k]);
            } else {
                assert(r[m] == z.last());
            }
        }
    }
}

proof fn lemma_strip_paddings_id(z: Seq<FieldOrPaddingV>)
    requires
        spec_fields_only(z),
    ensures
        crate::transformer::spec_strip_paddings(z) == z,
    decreases z.len(),
{
    if z.len() > 0 {
        let dl = z.drop_last();
        assert(spec_fields_only(dl)) by {
            assert forall|i: int| 0 <= i < dl.len() implies (#[trigger] dl[i]) is Field by {
                assert(dl[i] == z[i]);
            }
        }
        lemma_strip_paddings_id(dl);
        assert(z.last() is Field);
        assert(crate::transformer::spec_strip_paddings(z) =~= z);
    }
}

proof fn lemma_insert_item_keeps_sorted(x: FieldOrPaddingV, z: Seq<FieldOrPaddingV>)
    requires
        spec_items_sorted(z),
    ensures
        spec_items_sorted(crate::transformer::spec_insert_item(x, z)),
    decreases z.len(),
{
    let r = crate::transformer::spec_insert_item(x, z);
    if z.len() == 0 {
    } else if crate::transformer::spec_item_lt(x, z[0]) {
        assert forall|i: int| #![trigger r[i]] 0 <= i < r.len() - 1 implies r[i].size() >= r[i
            + 1].size() by {
            if i == 0 {
                assert(r[0] == x);
                assert(r[1] == z[0]);
            } else {
                assert(r[i] == z[i - 1]);
                assert(r[i + 1] == z[i]);
            }
        }
    } else {
        assert(spec_items_sorted(z.drop_first())) by {
            assert forall|i: int|
                #![trigger z.drop_first()[i]]
                0 <= i < z.drop_first().len() - 1 implies z.drop_first()[i].size()
                >= z.drop_first()[i + 1].size() by {
                assert(z.drop_first()[i] == z[i + 1]);
                assert(z.drop_first()[i + 1] == z[i + 2]);
            }
        }
        lemma_insert_item_keeps_sorted(x, z.drop_first());
        let inner = crate::transformer::spec_insert_item(x, z.drop_first());
        assert(r == seq![z[0]] + inner);
        assert forall|i: int| #![trigger r[i]] 0 <= i < r.len() - 1 implies r[i].size() >= r[i
            + 1].size() by {
            if i == 0 {
                assert(r[0] == z[0]);
                assert(r[1] == inner[0]);
                if z.drop_first().len() == 0 {
                    assert(inner[0] == x);
                } else if crate::transformer::spec_item_lt(x, z.drop_first()[0]) {
                    assert(inner[0] == x);
                } else {
                    assert(inner[0] == z.drop_first()[0]);
                    assert(z[0].size() >= z[1].size());
                }
            } else {
                assert(r[i] == inner[i - 1]);
                assert(r[i + 1] == inner[i]);
            }
        }
    }
}

proof fn lemma_sort_items_sorted(z: Seq<FieldOrPaddingV>)
    ensures
        spec_items_sorted(crate::transformer::spec_sort_items(z)),
    decreases z.len(),
{
    if z.len() > 0 {
        lemma_sort_items_sorted(z.drop_last());
        lemma_insert_item_keeps_sorted(
            z.last(),
            crate::transformer::spec_sort_items(z.drop_last()),
        );
    }
}

proof fn lemma_items_sorted_pairwise(z: Seq<FieldOrPaddingV>, i: int, j: int)
    requires
        spec_items_sorted(z),
        0 <= i <= j < z.len(),
    ensures
        z[i].size() >= z[j].size(),
    decreases j - i,
{
    if i < j {
        lemma_items_sorted_pairwise(z, i, j - 1);
    }
}

proof fn lemma_sort_items_id(z: Seq<FieldOrPaddingV>)
    requires
        spec_items_sorted(z),
    ensures
        crate::transformer::spec_sort_items(z) == z,
    decreases z.len(),
{
    if z.len() > 0 {
        let dl = z.drop_last();
        assert(spec_items_sorted(dl)) by {
            assert forall|i: int|
                #![trigger dl[i]]
                0 <= i < dl.len() - 1 implies dl[i].size() >= dl[i + 1].size() by {
                assert(dl[i] == z[i]);
                assert(dl[i + 1] == z[i + 1]);
            }
        }
        lemma_sort_items_id(dl);
        assert forall|k: int| 0 <= k < dl.len() implies !crate::transformer::spec_item_lt(
            z.last(),
            #[trigger] dl[k],
        ) by {
            assert(dl[k] == z[k]);
            lemma_items_sorted_pairwise(z, k, z.len() - 1);
        }
        crate::transformer::lemma_insert_item_position(z.last(), dl, dl.len() as int);
        assert(crate::transformer::spec_sort_items(z) == dl.insert(dl.len() as int, z.last()));
        assert(dl.insert(dl.len() as int, z.last()) =~= z);
    }
}

proof fn lemma_items_ge_after_sortf(z: Seq<FieldOrPaddingV>, h: usize)
    requires
        spec_items_ge(z, h),
    ensures
        spec_items_ge(
            crate::transformer::spec_sort_items(crate::transformer::spec_strip_paddings(z)),
            h,
        ),
{
    let stripped = crate::transformer::spec_strip_paddings(z);
    lemma_strip_paddings_shape(z);
    assert(spec_items_ge(stripped, h)) by {
        assert forall|i: int| 0 <= i < stripped.len() implies (#[trigger] stripped[i]).size()
            >= h by {
            let k = choose|k: int| 0 <= k < z.len() && stripped[i] == z[k];
        }
    }
    lemma_sort_items_elements(stripped);
    let sorted = crate::transformer::spec_sort_items(stripped);
    assert forall|i: int| 0 <= i < sorted.len() implies (#[trigger] sorted[i]).size() >= h by {
        let k = choose|k: int| 0 <= k < stripped.len() && sorted[i] == stripped[k];
    }
}

proof fn lemma_sortf_keeps_small_free(t: TypeV, h: usize)
    requires
        spec_small_free(t, h),
    ensures
        spec_small_free(spec_sortf(t), h),
{
    let r = spec_sortf(t);
    match t.kind {
        TypeKindV::Struct(s) => {
            lemma_items_ge_after_sortf(s.items, h);
        },
        TypeKindV::Enum(e) => {
            let rv = crate::transformer::spec_sortf_variants(e.variants);
            assert forall|i: int| 0 <= i < rv.len() implies spec_items_ge(
                (#[trigger] rv[i]).items,
                h,
            ) by {
                lemma_items_ge_after_sortf(e.variants[i].items, h);
            }
        },
    }
}

proof fn lemma_sortf_establishes_tidy(t: TypeV)
    ensures
        spec_tidy(spec_sortf(t)),
{
    let r = spec_sortf(t);
    match t.kind {
        TypeKindV::Struct(s) => {
            lemma_strip_paddings_shape(s.items);
            let stripped = crate::transformer::spec_strip_paddings(s.items);
            lemma_sort_items_elements(stripped);
            lemma_sort_items_sorted(stripped);
            let sorted = crate::transformer::spec_sort_items(stripped);
            assert forall|i: int| 0 <= i < sorted.len() implies (#[trigger] sorted[i])
                is Field by {
                let k = choose|k: int| 0 <= k < stripped.len() && sorted[i] == stripped[k];
            }
        },
        TypeKindV::Enum(e) => {
            let rv = crate::transformer::spec_sortf_variants(e.variants);
            assert forall|i: int| 0 <= i < rv.len() implies spec_fields_only(
                (#[trigger] rv[i]).items,
            ) && spec_items_sorted(rv[i].items) by {
                lemma_strip_paddings_shape(e.variants[i].items);
                let stripped = crate::transformer::spec_strip_paddings(e.variants[i].items);
                lemma_sort_items_elements(stripped);
                lemma_sort_items_sorted(stripped);
                let sorted = crate::transformer::spec_sort_items(stripped);
                assert forall|m: int| 0 <= m < sorted.len() implies (#[trigger] sorted[m])
                    is Field by {
                    let k = choose|k: int| 0 <= k < stripped.len() && sorted[m] == stripped[k];
                }
            }
        },
    }
}

proof fn lemma_sortf_id(t: TypeV)
    requires
        spec_tidy(t),
    ensures
        spec_sortf(t) == t,
{
    match t.kind {
        TypeKindV::Struct(s) => {
            lemma_strip_paddings_id(s.items);
            lemma_sort_items_id(s.items);
            assert(spec_sortf(t) =~= t);
        },
        TypeKindV::Enum(e) => {
            let rv = crate::transformer::spec_sortf_variants(e.variants);
            assert forall|i: int| 0 <= i < rv.len() implies #[trigger] rv[i] == e.variants[i] by {
                lemma_strip_paddings_id(e.variants[i].items);
                lemma_sort_items_id(e.variants[i].items);
                assert(rv[i] =~= e.variants[i]);
            }
            assert(rv =~= e.variants);
            assert(spec_sortf(t) =~= t);
        },
    }
}

/// Every variant the merge stage emits carries the item list of one of the
/// variants that went in.
proof fn lemma_merge_into_items(acc: Seq<EnumVariantV>, v: EnumVariantV)
    ensures
        forall|m: int|
            0 <= m < spec_merge_into(acc, v).len() ==> ((exists|k: int|
                0 <= k < acc.len() && (#[trigger] spec_merge_into(acc, v)[m]).items
                    == acc[k].items) || spec_merge_into(acc, v)[m].items == v.items),
{
    lemma_first_match_props(acc, v);
    let j = spec_first_match(acc, v);
    let r = spec_merge_into(acc, v);
    assert forall|m: int| 0 <= m < r.len() implies ((exists|k: int|
        0 <= k < acc.len() && (#[trigger] r[m]).items == acc[k].items) || r[m].items
        == v.items) by {
        if j == -1 {
            if m < acc.len() {
                assert(r[m].items == acc[m].items);
            } else {
                assert(r[m].items == v.items);
            }
        } else {
            if m == j {
                assert(r[m].items == acc[j].items);
            } else {
                assert(r[m].items == acc[m].items);
            }
        }
    }
}

proof fn lemma_merge_list_items(vs: Seq<EnumVariantV>)
    ensures
        forall|m: int|
            0 <= m < spec_merge_list(vs).len() ==> exists|k: int|
                0 <= k < vs.len() && (#[trigger] spec_merge_list(vs)[m]).items == vs[k].items,
    decreases vs.len(),
{
    if vs.len() > 0 {
        let dl = vs.drop_last();
        lemma_merge_list_items(dl);
        let inner = spec_merge_list(dl);
        lemma_merge_into_items(inner, vs.last());
        let r = spec_merge_list(vs);
        assert forall|m: int| 0 <= m < r.len() implies exists|k: int|
            0 <= k < vs.len() && (#[trigger] r[m]).items == vs[k].items by {
            if exists|k: int| 0 <= k < inner.len() && r[m].items == inner[k].items {
                let k = choose|k: int| 0 <= k < inner.len() && r[m].items == inner[k].items;
                let k2 = choose|k2: int| 0 <= k2 < dl.len() && inner[k].items == dl[k2].items;
                assert(r[m].items == vs[k2].items);
            } else {
                assert(r[m].items == vs[vs.len() - 1].items);
            }
        }
    }
}

/// The merged and re-sorted variants carry only item lists of the original
/// variants.
proof fn lemma_merged_variant_items(vs: Seq<EnumVariantV>)
    ensures
        forall|m: int|
            0 <= m < spec_sort_variants(spec_merge_list(vs)).len() ==> exists|k: int|
                0 <= k < vs.len() && (#[trigger] spec_sort_variants(spec_merge_list(vs))[m]).items
                    == vs[k].items,
{
    let merged = spec_merge_list(vs);
    lemma_merge_list_distinct(vs);
    lemma_sort_variants_keeps_distinct(merged);
    lemma_merge_list_items(vs);
    let sorted = spec_sort_variants(merged);
    assert forall|m: int| 0 <= m < sorted.len() implies exists|k: int|
        0 <= k < vs.len() && (#[trigger] sorted[m]).items == vs[k].items by {
        let k = choose|k: int| 0 <= k < merged.len() && sorted[m] == merged[k];
        let k2 = choose|k2: int| 0 <= k2 < vs.len() && merged[k].items == vs[k2].items;
        assert(sorted[m].items == vs[k2].items);
    }
}

proof fn lemma_merge_keeps_small_free(t: TypeV, h: usize)
    requires
        spec_small_free(t, h),
    ensures
        spec_small_free(spec_sort_and_merge(t), h),
{
    let r = spec_sort_and_merge(t);
    match t.kind {
        TypeKindV::Struct(_) => {},
        TypeKindV::Enum(e) => {
            lemma_merged_variant_items(e.variants);
            let rv = spec_sort_variants(spec_merge_list(e.variants));
            assert forall|i: int| 0 <= i < rv.len() implies spec_items_ge(
                (#[trigger] rv[i]).items,
                h,
            ) by {
                let k = choose|k: int| 0 <= k < e.variants.len() && rv[i].items
                    == e.variants[k].items;
                assert(spec_items_ge(e.variants[k].items, h));
            }
        },
    }
}

proof fn lemma_merge_keeps_tidy(t: TypeV)
    requires
        spec_tidy(t),
    ensures
        spec_tidy(spec_sort_and_merge(t)),
{
    let r = spec_sort_and_merge(t);
    match t.kind {
        TypeKindV::Struct(_) => {},
        TypeKindV::Enum(e) => {
            lemma_merged_variant_items(e.variants);
            let rv = spec_sort_variants(spec_merge_list(e.variants));
            assert forall|i: int| 0 <= i < rv.len() implies spec_fields_only(
                (#[trigger] rv[i]).items,
            ) && spec_items_sorted(rv[i].items) by {
                let k = choose|k: int| 0 <= k < e.variants.len() && rv[i].items
                    == e.variants[k].items;
                assert(spec_fields_only(e.variants[k].items));
                assert(spec_items_sorted(e.variants[k].items));
            }
        },
    }
}

/// Refining a refined type changes nothing: everything below the threshold
/// is already gone, item lists are already tidy when field sorting is on,
/// and merged variants merge to themselves.
pub proof fn lemma_refine_idempotent(t: TypeV, o: OptionsV)
    ensures
        spec_refine(spec_refine(t, o), o) == spec_refine(t, o),
{
    let u = match o.hide_less {
        Some(h) => spec_remove_small(t, h),
        None => t,
    };
    let v = if o.sort_fields {
        spec_sortf(u)
    } else {
        u
    };
    let w = spec_sort_and_merge(v);
    match o.hide_less {
        Some(h) => {
            lemma_remove_small_establishes(t, h);
            if o.sort_fields {
                lemma_sortf_keeps_small_free(u, h);
            }
            lemma_merge_keeps_small_free(v, h);
            lemma_remove_small_id(w, h);
        },
        None => {},
    }
    if o.sort_fields {
        lemma_sortf_establishes_tidy(u);
        lemma_merge_keeps_tidy(v);
        lemma_sortf_id(w);
    }
    lemma_sort_and_merge_idempotent(v);
}

// ---------------------------------------------------------------------------
// Idempotence of the whole pipeline
// ---------------------------------------------------------------------------

proof fn lemma_filter_keeps(s: Seq<TypeV>, o: OptionsV)
    ensures
        forall|m: int|
            0 <= m < spec_filter_types(s, o).len() ==> crate::transformer::spec_keeps(
                #[trigger] spec_filter_types(s, o)[m],
                o,
            ),
    decreases s.len(),
{
    if s.len() > 0 {
        lemma_filter_keeps(s.drop_last(), o);
        let inner = spec_filter_types(s.drop_last(), o);
        let r = spec_filter_types(s, o);
        assert forall|m: int| 0 <= m < r.len() implies crate::transformer::spec_keeps(
            #[trigger] r[m],
            o,
        ) by {
            if m < inner.len() {
                assert(r[m] == inner[m]);
            } else {
                assert(r[m] == s.last());
            }
        }
    }
}

proof fn lemma_filter_all_id(s: Seq<TypeV>, o: OptionsV)
    requires
        forall|m: int| 0 <= m < s.len() ==> crate::transformer::spec_keeps(#[trigger] s[m], o),
    ensures
        spec_filter_types(s, o) == s,
    decreases s.len(),
{
    if s.len() > 0 {
        let dl = s.drop_last();
        assert forall|m: int| 0 <= m < dl.len() implies crate::transformer::spec_keeps(
            #[trigger] dl[m],
            o,
        ) by {
            assert(dl[m] == s[m]);
        }
        lemma_filter_all_id(dl, o);
        assert(crate::transformer::spec_keeps(s.last(), o));
        assert(spec_filter_types(s, o) =~= s);
    }
}

proof fn lemma_insert_type_is_seq_insert(x: TypeV, z: Seq<TypeV>)
    ensures
        exists|k: int|
            0 <= k <= z.len() && spec_insert_type(x, z) == #[trigger] z.insert(k, x),
    decreases z.len(),
{
    if z.len() == 0 {
        assert(spec_insert_type(x, z) =~= z.insert(0, x));
    } else if spec_type_lt(x, z[0]) {
        assert(spec_insert_type(x, z) =~= z.insert(0, x));
    } else {
        lemma_insert_type_is_seq_insert(x, z.drop_first());
        let k = choose|k: int|
            0 <= k <= z.drop_first().len() && spec_insert_type(x, z.drop_first()) == #[trigger]
                z.drop_first().insert(k, x);
        assert(seq![z[0]] + z.drop_first().insert(k, x) =~= z.insert(k + 1, x));
    }
}

proof fn lemma_sort_types_elements(z: Seq<TypeV>)
    ensures
        spec_sort_types(z).len() == z.len(),
        forall|m: int|
            0 <= m < z.len() ==> exists|k: int|
                0 <= k < z.len() && #[trigger] spec_sort_types(z)[m] == z[k],
    decreases z.len(),
{
    if z.len() > 0 {
        let dl = z.drop_last();
        lemma_sort_types_elements(dl);
        let inner = spec_sort_types(dl);
        lemma_insert_type_is_seq_insert(z.last(), inner);
        let k0 = choose|k: int|
            0 <= k <= inner.len() && spec_insert_type(z.last(), inner) == #[trigger] inner.insert(
                k,
                z.last(),
            );
        let r = spec_sort_types(z);
        assert(r == inner.insert(k0, z.last()));
        assert forall|m: int| 0 <= m < z.len() implies exists|k: int|
            0 <= k < z.len() && #[trigger] r[m] == z[k] by {
            if m == k0 {
                assert(r[m] == z[z.len() - 1]);
            } else if m < k0 {
                assert(r[m] == inner[m]);
                let k = choose|k: int| 0 <= k < dl.len() && inner[m] == dl[k];
                assert(r[m] == z[k]);
            } else {
                assert(r[m] == inner[m - 1]);
                let k = choose|k: int| 0 <= k < dl.len() && inner[m - 1] == dl[k];
                assert(r[m] == z[k]);
            }
        }
    }
}

proof fn lemma_dedup_elements(s: Seq<TypeV>)
    ensures
        forall|m: int|
            0 <= m < spec_dedup_types(s).len() ==> exists|k: int|
                0 <= k < s.len() && #[trigger] spec_dedup_types(s)[m] == s[k],
    decreases s.len(),
{
    if s.len() > 0 {
        lemma_dedup_elements(s.drop_last());
        let inner = spec_dedup_types(s.drop_last());
        let r = spec_dedup_types(s);
        assert forall|m: int| 0 <= m < r.len() implies exists|k: int|
            0 <= k < s.len() && #[trigger] r[m] == s[k] by {
            if m < inner.len() {
                assert(r[m] == inner[m]);
                let k = choose|k: int| 0 <= k < s.drop_last().len() && inner[m]
                    == s.drop_last()[k];
                assert(r[m] == s[k]);
            } else {
                assert(r[m] == s.last());
            }
        }
    }
}

proof fn lemma_sort_of_sorted_id(z: Seq<TypeV>)
    requires
        spec_sorted_types(z),
    ensures
        spec_sort_types(z) == z,
    decreases z.len(),
{
    if z.len() > 0 {
        let dl = z.drop_last();
        assert(spec_sorted_types(dl)) by {
            assert forall|i: int|
                #![trigger dl[i]]
                0 <= i < dl.len() - 1 implies spec_type_le(dl[i], dl[i + 1]) by {
                assert(dl[i] == z[i]);
                assert(dl[i + 1] == z[i + 1]);
            }
        }
        lemma_sort_of_sorted_id(dl);
        assert forall|k: int| 0 <= k < dl.len() implies !spec_type_lt(
            z.last(),
            #[trigger] dl[k],
        ) by {
            assert(dl[k] == z[k]);
            lemma_sorted_pairwise(z, k, z.len() - 1);
        }
        crate::transformer::lemma_insert_type_position(z.last(), dl, dl.len() as int);
        assert(spec_sort_types(z) == dl.insert(dl.len() as int, z.last()));
        assert(dl.insert(dl.len() as int, z.last()) =~= z);
    }
}

proof fn lemma_dedup_of_distinct_id(z: Seq<TypeV>)
    requires
        spec_no_adjacent_duplicates(z),
    ensures
        spec_dedup_types(z) == z,
    decreases z.len(),
{
    if z.len() > 0 {
        let dl = z.drop_last();
        assert(spec_no_adjacent_duplicates(dl)) by {
            assert forall|i: int| #![trigger dl[i]] 0 <= i < dl.len() - 1 implies dl[i] != dl[i
                + 1] by {
                assert(dl[i] == z[i]);
                assert(dl[i + 1] == z[i + 1]);
            }
        }
        lemma_dedup_of_distinct_id(dl);
        if dl.len() > 0 {
            assert(dl.last() == z[z.len() - 2]);
            assert(z[z.len() - 2] != z[z.len() - 1]);
        }
        assert(spec_dedup_types(z) =~= z);
    }
}

proof fn lemma_merge_into_covers(acc: Seq<EnumVariantV>, v: EnumVariantV)
    ensures
        forall|k: int|
            0 <= k < acc.len() ==> exists|m: int|
                0 <= m < spec_merge_into(acc, v).len() && (#[trigger] acc[k]).items
                    == spec_merge_into(acc, v)[m].items,
        exists|m: int|
            0 <= m < spec_merge_into(acc, v).len() && spec_merge_into(acc, v)[m].items == v.items,
{
    lemma_first_match_props(acc, v);
    let j = spec_first_match(acc, v);
    let r = spec_merge_into(acc, v);
    if j == -1 {
        assert forall|k: int| 0 <= k < acc.len() implies exists|m: int|
            0 <= m < r.len() && (#[trigger] acc[k]).items == r[m].items by {
            assert(acc[k].items == r[k].items);
        }
        assert(r[acc.len() as int].items == v.items);
    } else {
        assert forall|k: int| 0 <= k < acc.len() implies exists|m: int|
            0 <= m < r.len() && (#[trigger] acc[k]).items == r[m].items by {
            if k == j {
                assert(acc[k].items == r[j].items);
            } else {
                assert(acc[k].items == r[k].items);
            }
        }
        assert(r[j].items == acc[j].items);
        assert(r[j].items == v.items);
    }
}

proof fn lemma_merge_list_covers(vs: Seq<EnumVariantV>)
    ensures
        forall|k: int|
            0 <= k < vs.len() ==> exists|m: int|
                0 <= m < spec_merge_list(vs).len() && (#[trigger] vs[k]).items
                    == spec_merge_list(vs)[m].items,
    decreases vs.len(),
{
    if vs.len() > 0 {
        let dl = vs.drop_last();
        lemma_merge_list_covers(dl);
        let inner = spec_merge_list(dl);
        lemma_merge_into_covers(inner, vs.last());
        let r = spec_merge_list(vs);
        assert forall|k: int| 0 <= k < vs.len() implies exists|m: int|
            0 <= m < r.len() && (#[trigger] vs[k]).items == r[m].items by {
            if k < dl.len() {
                assert(vs[k] == dl[k]);
                let m1 = choose|m1: int| 0 <= m1 < inner.len() && dl[k].items == inner[m1].items;
                let m2 = choose|m2: int| 0 <= m2 < r.len() && inner[m1].items == r[m2].items;
                assert(vs[k].items == r[m2].items);
            } else {
                let m = choose|m: int| 0 <= m < r.len() && r[m].items == vs.last().items;
                assert(vs[k].items == r[m].items);
            }
        }
    }
}

proof fn lemma_sort_variants_covers(z: Seq<EnumVariantV>)
    ensures
        forall|k: int|
            0 <= k < z.len() ==> exists|m: int|
                0 <= m < spec_sort_variants(z).len() && #[trigger] z[k] == spec_sort_variants(
                    z,
                )[m],
        spec_sort_variants(z).len() == z.len(),
    decreases z.len(),
{
    if z.len() > 0 {
        let dl = z.drop_last();
        lemma_sort_variants_covers(dl);
        let inner = spec_sort_variants(dl);
        lemma_insert_variant_is_seq_insert(z.last(), inner);
        let k0 = choose|k: int|
            0 <= k <= inner.len() && spec_insert_variant(z.last(), inner) == #[trigger]
                inner.insert(k, z.last());
        let r = spec_sort_variants(z);
        assert(r == inner.insert(k0, z.last()));
        assert forall|k: int| 0 <= k < z.len() implies exists|m: int|
            0 <= m < r.len() && #[trigger] z[k] == r[m] by {
            if k == z.len() - 1 {
                assert(z[k] == r[k0]);
            } else {
                assert(z[k] == dl[k]);
                let m1 = choose|m1: int| 0 <= m1 < inner.len() && dl[k] == inner[m1];
                if m1 < k0 {
                    assert(z[k] == r[m1]);
                } else {
                    assert(z[k] == r[m1 + 1]);
                }
            }
        }
    }
}

/// Merging the variants neither makes nor unmakes a wrapper: the item lists
/// of the merged variants are exactly the item lists of the original ones,
/// and nothing else about the type changes.
proof fn lemma_merge_preserves_wrapper(t: TypeV)
    ensures
        crate::transformer::spec_is_wrapper(spec_sort_and_merge(t))
            == crate::transformer::spec_is_wrapper(t),
{
    let r = spec_sort_and_merge(t);
    match t.kind {
        TypeKindV::Struct(_) => {},
        TypeKindV::Enum(e) => {
            let merged = spec_merge_list(e.variants);
            let rv = spec_sort_variants(merged);
            lemma_merged_variant_items(e.variants);
            lemma_merge_list_covers(e.variants);
            lemma_sort_variants_covers(merged);
            if crate::transformer::spec_is_wrapper(t) {
                assert forall|i: int|
                    0 <= i < rv.len() implies crate::transformer::spec_items_wrap(
                    t.size,
                    (#[trigger] rv[i]).items,
                ) by {
                    let k = choose|k: int| 0 <= k < e.variants.len() && rv[i].items
                        == e.variants[k].items;
                    assert(crate::transformer::spec_items_wrap(t.size, e.variants[k].items));
                }
                assert(crate::transformer::spec_is_wrapper(r));
            }
            if crate::transformer::spec_is_wrapper(r) {
                assert(r.size == t.size);
                assert(r.kind matches TypeKindV::Enum(re) && re.variants == rv);
                assert forall|i: int|
                    0 <= i < e.variants.len() implies crate::transformer::spec_items_wrap(
                    t.size,
                    (#[trigger] e.variants[i]).items,
                ) by {
                    let m1 = choose|m1: int| 0 <= m1 < merged.len() && e.variants[i].items
                        == merged[m1].items;
                    let m2 = choose|m2: int| 0 <= m2 < rv.len() && merged[m1] == rv[m2];
                    assert(e.variants[i].items == rv[m2].items);
                    assert(crate::transformer::spec_items_wrap(r.size, rv[m2].items));
                }
                assert(crate::transformer::spec_is_wrapper(t));
            }
        },
    }
}

/// Running the transformer on its own output reproduces that output, for a
/// configuration without expansion patterns and, when wrappers are dropped,
/// without the refinements that could turn a survivor into a wrapper —
/// provided the output holds no adjacent structural duplicates (the per-type
/// refinement can make two distinct survivors equal).
pub proof fn lemma_transform_idempotent(s: Seq<TypeV>, o: OptionsV)
    requires
        o.expand.len() == 0,
        o.remove_wrappers ==> o.hide_less is None && !o.sort_fields,
    ensures
        spec_no_adjacent_duplicates(spec_transform(s, o)) ==> spec_transform(
            spec_transform(s, o),
            o,
        ) == spec_transform(s, o),
{
    if spec_no_adjacent_duplicates(spec_transform(s, o)) {
        let kept = spec_filter_types(s, o);
        let sorted = spec_sort_types(kept);
        let ded = spec_dedup_types(sorted);
        let tr = spec_truncate(ded, o.limit);
        let big = spec_transform(s, o);
        assert(spec_expand(ded, o.expand, o.expand_by_size) == ded);
        assert(big == Seq::new(tr.len(), |i: int| spec_refine(tr[i], o)));

        // Every entry of the output passes the filter again.
        lemma_filter_keeps(s, o);
        lemma_sort_types_elements(kept);
        lemma_dedup_elements(sorted);
        assert forall|m: int| 0 <= m < big.len() implies crate::transformer::spec_keeps(
            #[trigger] big[m],
            o,
        ) by {
            assert(big[m] == spec_refine(tr[m], o));
            assert(tr[m] == ded[m]);
            let k1 = choose|k1: int| 0 <= k1 < sorted.len() && ded[m] == sorted[k1];
            let k2 = choose|k2: int| 0 <= k2 < kept.len() && sorted[k1] == kept[k2];
            assert(crate::transformer::spec_keeps(tr[m], o));
            lemma_refine_keeps_key(tr[m], o);
            if o.remove_wrappers {
                assert(spec_refine(tr[m], o) == spec_sort_and_merge(tr[m]));
                lemma_merge_preserves_wrapper(tr[m]);
            }
        }
        lemma_filter_all_id(big, o);

        // It is already sorted, free of adjacent duplicates, and short
        // enough.
        lemma_transform_sorted(s, o);
        lemma_sort_of_sorted_id(big);
        lemma_dedup_of_distinct_id(big);
        match o.limit {
            Some(l) => {
                assert(tr.len() <= l);
                assert(spec_truncate(big, o.limit) == big);
            },
            None => {},
        }

        // Refining it again changes nothing.
        let again = spec_transform(big, o);
        assert(again == Seq::new(big.len(), |i: int| spec_refine(big[i], o)));
        assert forall|m: int| 0 <= m < big.len() implies #[trigger] again[m] == big[m] by {
            assert(big[m] == spec_refine(tr[m], o));
            lemma_refine_idempotent(tr[m], o);
            assert(again[m] == spec_refine(big[m], o));
        }
        assert(again =~= big);
    }
}

} // verus!
