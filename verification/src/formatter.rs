//! The renderer: turns the final type sequence into display text.  Every
//! rendered line is stated byte for byte by the `spec_render_…` functions;
//! `spec_format` is the contract of [`format`].

use vstd::prelude::*;
use crate::options::{Options, OptionsV};
use crate::parser::{dec_digits, pad_left, spec_dec_digits, spec_pad_left};
use crate::schema::{
    EnumType, EnumTypeV, EnumVariant, EnumVariantV, Field, FieldKind, FieldOrPadding,
    FieldOrPaddingV, StructType, Type, TypeKind, TypeKindV, TypeV,
};

verus! {

// ---------------------------------------------------------------------------
// Rendered fragments
// ---------------------------------------------------------------------------

/// A size right-aligned to seven characters.
pub open spec fn spec_pad7(n: int) -> Seq<u8> {
    spec_pad_left(spec_dec_digits(n), 7)
}

/// `" (upvar)"`
pub open spec fn lit_upvar() -> Seq<u8> {
    seq![32u8, 40u8, 117u8, 112u8, 118u8, 97u8, 114u8, 41u8]
}

/// `" align="`
pub open spec fn lit_align() -> Seq<u8> {
    seq![32u8, 97u8, 108u8, 105u8, 103u8, 110u8, 61u8]
}

/// `" offset="`
pub open spec fn lit_offset() -> Seq<u8> {
    seq![32u8, 111u8, 102u8, 102u8, 115u8, 101u8, 116u8, 61u8]
}

/// `" type="`
pub open spec fn lit_type() -> Seq<u8> {
    seq![32u8, 116u8, 121u8, 112u8, 101u8, 61u8]
}

/// `" <padding>"`
pub open spec fn lit_padding() -> Seq<u8> {
    seq![32u8, 60u8, 112u8, 97u8, 100u8, 100u8, 105u8, 110u8, 103u8, 62u8]
}

/// `" <discriminant>"`
pub open spec fn lit_discriminant() -> Seq<u8> {
    seq![
        32u8,
        60u8,
        100u8,
        105u8,
        115u8,
        99u8,
        114u8,
        105u8,
        109u8,
        105u8,
        110u8,
        97u8,
        110u8,
        116u8,
        62u8,
    ]
}

/// `" variant "`
pub open spec fn lit_variant() -> Seq<u8> {
    seq![32u8, 118u8, 97u8, 114u8, 105u8, 97u8, 110u8, 116u8, 32u8]
}

/// `" <end padding>"`
pub open spec fn lit_end_padding() -> Seq<u8> {
    seq![
        32u8,
        60u8,
        101u8,
        110u8,
        100u8,
        32u8,
        112u8,
        97u8,
        100u8,
        100u8,
        105u8,
        110u8,
        103u8,
        62u8,
    ]
}

/// `"no types found"`
pub open spec fn lit_no_types() -> Seq<u8> {
    seq![110u8, 111u8, 32u8, 116u8, 121u8, 112u8, 101u8, 115u8, 32u8, 102u8, 111u8, 117u8,
        110u8, 100u8]
}

// ---------------------------------------------------------------------------
// Rendered records
// ---------------------------------------------------------------------------

/// One rendered item line: the size right-aligned, the name, then the
/// optional attributes, behind the given indentation.
pub open spec fn spec_render_item(it: FieldOrPaddingV, ind: Seq<u8>) -> Seq<u8> {
    match it {
        FieldOrPaddingV::Field(f) => ind + spec_pad7(f.size as int) + seq![32u8] + f.name + (
        if f.kind == FieldKind::Upvar {
            lit_upvar()
        } else {
            Seq::empty()
        }) + (match f.align {
            Some(a) => lit_align() + spec_dec_digits(a as int),
            None => Seq::empty(),
        }) + (match f.offset {
            Some(o) => lit_offset() + spec_dec_digits(o as int),
            None => Seq::empty(),
        }) + (match f.local_type {
            Some(t) => lit_type() + t,
            None => Seq::empty(),
        }) + seq![10u8],
        FieldOrPaddingV::Padding(p) => ind + spec_pad7(p as int) + lit_padding() + seq![10u8],
    }
}

/// The rendered item lines, in order.
pub open spec fn spec_render_items(items: Seq<FieldOrPaddingV>, ind: Seq<u8>) -> Seq<u8>
    decreases items.len(),
{
    if items.len() == 0 {
        Seq::empty()
    } else {
        spec_render_items(items.drop_last(), ind) + spec_render_item(items.last(), ind)
    }
}

/// A wrapping variant: its sole item is an anonymous positional field, so its
/// item lines are suppressed.
pub open spec fn spec_is_wrapping_variant(v: EnumVariantV) -> bool {
    v.items.len() == 1 && match v.items[0] {
        FieldOrPaddingV::Field(f) => f.name == seq![48u8],
        FieldOrPaddingV::Padding(_) => false,
    }
}

/// One rendered variant: its header line, and its item lines unless it is a
/// wrapping variant.
pub open spec fn spec_render_variant(v: EnumVariantV) -> Seq<u8> {
    spec_pad7(v.size as int) + lit_variant() + v.name + seq![10u8] + (
    if spec_is_wrapping_variant(v) {
        Seq::empty()
    } else {
        spec_render_items(v.items, tag_ind4())
    })
}

/// The four-space indentation of variant items.
pub open spec fn tag_ind4() -> Seq<u8> {
    seq![32u8, 32u8, 32u8, 32u8]
}

/// The rendered variants, in order.
pub open spec fn spec_render_variants(vs: Seq<EnumVariantV>) -> Seq<u8>
    decreases vs.len(),
{
    if vs.len() == 0 {
        Seq::empty()
    } else {
        spec_render_variants(vs.drop_last()) + spec_render_variant(vs.last())
    }
}

/// A rendered enum body: the discriminant line when present, then the
/// variants.
pub open spec fn spec_render_enum(e: EnumTypeV) -> Seq<u8> {
    (match e.discriminant_size {
        Some(d) => spec_pad7(d as int) + lit_discriminant() + seq![10u8],
        None => Seq::empty(),
    }) + spec_render_variants(e.variants)
}

/// A rendered type block: the header line, the body, the end-padding line
/// when present, and a blank separator line.
pub open spec fn spec_render_type(t: TypeV) -> Seq<u8> {
    spec_dec_digits(t.size as int) + seq![32u8] + t.name + lit_align() + spec_dec_digits(
        t.align as int,
    ) + seq![10u8] + (match t.kind {
        TypeKindV::Struct(s) => spec_render_items(s.items, Seq::empty()),
        TypeKindV::Enum(e) => spec_render_enum(e),
    }) + (match t.end_padding {
        Some(p) => spec_pad7(p as int) + lit_end_padding() + seq![10u8],
        None => Seq::empty(),
    }) + seq![10u8]
}

/// The rendered blocks, in order.
pub open spec fn spec_render_types(ts: Seq<TypeV>) -> Seq<u8>
    decreases ts.len(),
{
    if ts.len() == 0 {
        Seq::empty()
    } else {
        spec_render_types(ts.drop_last()) + spec_render_type(ts.last())
    }
}

/// The sequence in reverse order.
pub open spec fn spec_reverse_types(ts: Seq<TypeV>) -> Seq<TypeV> {
    Seq::new(ts.len(), |i: int| ts[ts.len() - 1 - i])
}

/// A sequence with its last element removed, when it has one.
pub open spec fn spec_chop(r: Seq<u8>) -> Seq<u8> {
    if r.len() > 0 {
        r.drop_last()
    } else {
        r
    }
}

/// The whole rendering: `no types found` for an empty sequence; otherwise
/// the blocks (reversed when configured) without the trailing blank line.
pub open spec fn spec_format(ts: Seq<TypeV>, o: OptionsV) -> Seq<u8> {
    if ts.len() == 0 {
        lit_no_types()
    } else {
        spec_chop(spec_chop(spec_render_types(
            if o.reverse {
                spec_reverse_types(ts)
            } else {
                ts
            },
        )))
    }
}

// ---------------------------------------------------------------------------
// Executable rendering
// ---------------------------------------------------------------------------

/// Reports whether a variant renders as a wrapping variant.
pub fn is_wrapping_variant(variant: &EnumVariant) -> (r: bool)
    ensures
        r == spec_is_wrapping_variant(variant.deep_view()),
{
    if variant.items.len() != 1 {
        return false;
    }
    proof {
        crate::schema::lemma_deep_view_index(&variant.items, 0);
    }
    match &variant.items[0] {
        FieldOrPadding::Field(f) => {
            let r = f.name.len() == 1 && f.name[0] == 48u8;
            proof {
                if r {
                    assert(f.name@ =~= seq![48u8]);
                } else {
                    assert(!(f.name@ =~= seq![48u8]));
                }
            }
            r
        },
        FieldOrPadding::Padding(_) => false,
    }
}

fn pad7(n: usize) -> (r: Vec<u8>)
    ensures
        r@ == spec_pad7(n as int),
{
    pad_left(dec_digits(n), 7)
}

fn lit_upvar_vec() -> (r: Vec<u8>)
    ensures
        r@ == lit_upvar(),
{
    let mut v: Vec<u8> = Vec::new();
    v.push(32u8);
    v.push(40u8);
    v.push(117u8);
    v.push(112u8);
    v.push(118u8);
    v.push(97u8);
    v.push(114u8);
    v.push(41u8);
    assert(v@ =~= lit_upvar());
    v
}

fn lit_align_vec() -> (r: Vec<u8>)
    ensures
        r@ == lit_align(),
{
    let mut v: Vec<u8> = Vec::new();
    v.push(32u8);
    v.push(97u8);
    v.push(108u8);
    v.push(105u8);
    v.push(103u8);
    v.push(110u8);
    v.push(61u8);
    assert(v@ =~= lit_align());
    v
}

fn lit_offset_vec() -> (r: Vec<u8>)
    ensures
        r@ == lit_offset(),
{
    let mut v: Vec<u8> = Vec::new();
    v.push(32u8);
    v.push(111u8);
    v.push(102u8);
    v.push(102u8);
    v.push(115u8);
    v.push(101u8);
    v.push(116u8);
    v.push(61u8);
    assert(v@ =~= lit_offset());
    v
}

fn lit_type_vec() -> (r: Vec<u8>)
    ensures
        r@ == lit_type(),
{
    let mut v: Vec<u8> = Vec::new();
    v.push(32u8);
    v.push(116u8);
    v.push(121u8);
    v.push(112u8);
    v.push(101u8);
    v.push(61u8);
    assert(v@ =~= lit_type());
    v
}

fn lit_padding_vec() -> (r: Vec<u8>)
    ensures
        r@ == lit_padding(),
{
    let mut v: Vec<u8> = Vec::new();
    v.push(32u8);
    v.push(60u8);
    v.push(112u8);
    v.push(97u8);
    v.push(100u8);
    v.push(100u8);
    v.push(105u8);
    v.push(110u8);
    v.push(103u8);
    v.push(62u8);
    assert(v@ =~= lit_padding());
    v
}

fn lit_end_padding_vec() -> (r: Vec<u8>)
    ensures
        r@ == lit_end_padding(),
{
    let mut v: Vec<u8> = Vec::new();
    v.push(32u8);
    v.push(60u8);
    v.push(101u8);
    v.push(110u8);
    v.push(100u8);
    v.push(32u8);
    v.push(112u8);
    v.push(97u8);
    v.push(100u8);
    v.push(100u8);
    v.push(105u8);
    v.push(110u8);
    v.push(103u8);
    v.push(62u8);
    assert(v@ =~= lit_end_padding());
    v
}

struct Formatter {
    o: Vec<u8>,
}

impl Formatter {
    #[verifier::rlimit(100)]
    fn format_field_or_padding(&mut self, field: &FieldOrPadding, ind: &Vec<u8>)
        ensures
            final(self).o@ == old(self).o@ + spec_render_item(field.deep_view(), ind@),
    {
        let ghost base = self.o@;
        let ghost itv = field.deep_view();
        match field {
            FieldOrPadding::Field(f) => {
                let ghost fv = (match itv {
                    FieldOrPaddingV::Field(fv) => fv,
                    FieldOrPaddingV::Padding(_) => arbitrary(),
                });
                let mut indc: Vec<u8> = Vec::new();
                indc.extend_from_slice(ind.as_slice());
                proof {
                    assert(indc@ =~= ind@);
                }
                self.o.append(&mut indc);
                let ghost g = ind@;
                let mut sz = pad7(f.size);
                self.o.append(&mut sz);
                proof {
                    assert(self.o@ =~= base + (g + spec_pad7(fv.size as int)));
                }
                let ghost g = g + spec_pad7(fv.size as int);
                self.o.push(32u8);
                proof {
                    assert(self.o@ =~= base + (g + seq![32u8]));
                }
                let ghost g = g + seq![32u8];
                let mut nm: Vec<u8> = Vec::new();
                nm.extend_from_slice(f.name.as_slice());
                proof {
                    assert(nm@ =~= f.name@);
                }
                self.o.append(&mut nm);
                proof {
                    assert(self.o@ =~= base + (g + fv.name));
                }
                let ghost g = g + fv.name;
                let is_upvar = match f.kind {
                    FieldKind::Upvar => true,
                    _ => false,
                };
                if is_upvar {
                    let mut u = lit_upvar_vec();
                    self.o.append(&mut u);
                }
                let ghost piece = (if fv.kind == FieldKind::Upvar {
                    lit_upvar()
                } else {
                    Seq::<u8>::empty()
                });
                proof {
                    assert(self.o@ =~= base + (g + piece));
                }
                let ghost g = g + piece;
                if let Some(a) = f.align {
                    let mut l = lit_align_vec();
                    self.o.append(&mut l);
                    let mut d = dec_digits(a);
                    self.o.append(&mut d);
                }
                let ghost piece = (match fv.align {
                    Some(a) => lit_align() + spec_dec_digits(a as int),
                    None => Seq::<u8>::empty(),
                });
                proof {
                    assert(self.o@ =~= base + (g + piece));
                }
                let ghost g = g + piece;
                if let Some(off) = f.offset {
                    let mut l = lit_offset_vec();
                    self.o.append(&mut l);
                    let mut d = dec_digits(off);
                    self.o.append(&mut d);
                }
                let ghost piece = (match fv.offset {
                    Some(o) => lit_offset() + spec_dec_digits(o as int),
                    None => Seq::<u8>::empty(),
                });
                proof {
                    assert(self.o@ =~= base + (g + piece));
                }
                let ghost g = g + piece;
                if let Some(t) = &f.local_type {
                    let mut l = lit_type_vec();
                    self.o.append(&mut l);
                    let mut tc: Vec<u8> = Vec::new();
                    tc.extend_from_slice(t.as_slice());
                    proof {
                        assert(tc@ =~= t@);
                    }
                    self.o.append(&mut tc);
                }
                let ghost piece = (match fv.local_type {
                    Some(t) => lit_type() + t,
                    None => Seq::<u8>::empty(),
                });
                proof {
                    assert(self.o@ =~= base + (g + piece));
                }
                let ghost g = g + piece;
                self.o.push(10u8);
                proof {
                    assert(self.o@ =~= base + (g + seq![10u8]));
                    assert(g + seq![10u8] == spec_render_item(itv, ind@));
                }
            },
            FieldOrPadding::Padding(p) => {
                let mut indc: Vec<u8> = Vec::new();
                indc.extend_from_slice(ind.as_slice());
                proof {
                    assert(indc@ =~= ind@);
                }
                self.o.append(&mut indc);
                let ghost g = ind@;
                let mut sz = pad7(*p);
                self.o.append(&mut sz);
                proof {
                    assert(self.o@ =~= base + (g + spec_pad7(*p as int)));
                }
                let ghost g = g + spec_pad7(*p as int);
                let mut l = lit_padding_vec();
                self.o.append(&mut l);
                proof {
                    assert(self.o@ =~= base + (g + lit_padding()));
                }
                let ghost g = g + lit_padding();
                self.o.push(10u8);
                proof {
                    assert(self.o@ =~= base + (g + seq![10u8]));
                    assert(g + seq![10u8] == spec_render_item(itv, ind@));
                }
            },
        }
    }

    fn format_items(&mut self, items: &Vec<FieldOrPadding>, ind: &Vec<u8>)
        ensures
            final(self).o@ == old(self).o@ + spec_render_items(items.deep_view(), ind@),
    {
        let ghost base = self.o@;
        let ghost dv = items.deep_view();
        for i in 0..items.len()
            invariant
                dv == items.deep_view(),
                self.o@ =~= base + spec_render_items(dv.take(i as int), ind@),
        {
            self.format_field_or_padding(&items[i], ind);
            proof {
                crate::schema::lemma_deep_view_index(items, i as int);
                assert(dv.take(i as int + 1).drop_last() =~= dv.take(i as int));
                assert(dv.take(i as int + 1).last() == dv[i as int]);
                assert(self.o@ =~= base + spec_render_items(dv.take(i as int + 1), ind@));
            }
        }
        proof {
            assert(dv.take(dv.len() as int) =~= dv);
        }
    }

    fn format_struct(&mut self, struct_: &StructType)
        ensures
            final(self).o@ == old(self).o@ + spec_render_items(
                struct_.deep_view().items,
                Seq::empty(),
            ),
    {
        let ind: Vec<u8> = Vec::new();
        assert(ind@ =~= Seq::<u8>::empty());
        self.format_items(&struct_.items, &ind);
    }

    #[verifier::rlimit(80)]
    fn format_enum(&mut self, enum_: &EnumType)
        ensures
            final(self).o@ == old(self).o@ + spec_render_enum(enum_.deep_view()),
    {
        let ghost base = self.o@;
        let ghost ev = enum_.deep_view();
        if let Some(size) = enum_.discriminant_size {
            let mut sz = pad7(size);
            self.o.append(&mut sz);
            self.o.push(32u8);
            self.o.push(60u8);
            self.o.push(100u8);
            self.o.push(105u8);
            self.o.push(115u8);
            self.o.push(99u8);
            self.o.push(114u8);
            self.o.push(105u8);
            self.o.push(109u8);
            self.o.push(105u8);
            self.o.push(110u8);
            self.o.push(97u8);
            self.o.push(110u8);
            self.o.push(116u8);
            self.o.push(62u8);
            self.o.push(10u8);
        }
        let ghost after_disc = self.o@;
        proof {
            assert(after_disc =~= base + (match ev.discriminant_size {
                Some(d) => spec_pad7(d as int) + lit_discriminant() + seq![10u8],
                None => Seq::<u8>::empty(),
            }));
        }
        let ind4 = {
            let mut v: Vec<u8> = Vec::new();
            v.push(32u8);
            v.push(32u8);
            v.push(32u8);
            v.push(32u8);
            assert(v@ =~= tag_ind4());
            v
        };
        let ghost vs = enum_.variants.deep_view();
        for i in 0..enum_.variants.len()
            invariant
                vs == enum_.variants.deep_view(),
                ind4@ == tag_ind4(),
                self.o@ =~= after_disc + spec_render_variants(vs.take(i as int)),
        {
            let variant = &enum_.variants[i];
            proof {
                crate::schema::lemma_deep_view_index(&enum_.variants, i as int);
            }
            let ghost vbase = self.o@;
            let mut sz = pad7(variant.size);
            self.o.append(&mut sz);
            self.o.push(32u8);
            self.o.push(118u8);
            self.o.push(97u8);
            self.o.push(114u8);
            self.o.push(105u8);
            self.o.push(97u8);
            self.o.push(110u8);
            self.o.push(116u8);
            self.o.push(32u8);
            let mut nm: Vec<u8> = Vec::new();
            nm.extend_from_slice(variant.name.as_slice());
            assert(nm@ =~= variant.name@);
            self.o.append(&mut nm);
            self.o.push(10u8);
            proof {
                assert(self.o@ =~= vbase + spec_pad7(vs[i as int].size as int) + lit_variant()
                    + vs[i as int].name + seq![10u8]);
            }
            let wrapping = is_wrapping_variant(variant);
            if !wrapping {
                self.format_items(&variant.items, &ind4);
            }
            proof {
                assert(self.o@ =~= vbase + spec_render_variant(vs[i as int]));
                assert(vs.take(i as int + 1).drop_last() =~= vs.take(i as int));
                assert(vs.take(i as int + 1).last() == vs[i as int]);
                assert(self.o@ =~= after_disc + spec_render_variants(vs.take(i as int + 1)));
            }
        }
        proof {
            assert(vs.take(vs.len() as int) =~= vs);
        }
    }

    #[verifier::rlimit(100)]
    fn format_types(&mut self, types: &Vec<Type>)
        ensures
            final(self).o@ == old(self).o@ + spec_render_types(types.deep_view()),
    {
        let ghost base = self.o@;
        let ghost dv = types.deep_view();
        for i in 0..types.len()
            invariant
                dv == types.deep_view(),
                self.o@ =~= base + spec_render_types(dv.take(i as int)),
        {
            let type_ = &types[i];
            proof {
                crate::schema::lemma_deep_view_index(types, i as int);
            }
            let ghost tv = dv[i as int];
            let ghost tbase = self.o@;
            let mut sz = dec_digits(type_.size);
            self.o.append(&mut sz);
            let ghost g = spec_dec_digits(tv.size as int);
            self.o.push(32u8);
            proof {
                assert(self.o@ =~= tbase + (g + seq![32u8]));
            }
            let ghost g = g + seq![32u8];
            let mut nm: Vec<u8> = Vec::new();
            nm.extend_from_slice(type_.name.as_slice());
            proof {
                assert(nm@ =~= type_.name@);
            }
            self.o.append(&mut nm);
            proof {
                assert(self.o@ =~= tbase + (g + tv.name));
            }
            let ghost g = g + tv.name;
            let mut la = lit_align_vec();
            self.o.append(&mut la);
            proof {
                assert(self.o@ =~= tbase + (g + lit_align()));
            }
            let ghost g = g + lit_align();
            let mut al = dec_digits(type_.align);
            self.o.append(&mut al);
            proof {
                assert(self.o@ =~= tbase + (g + spec_dec_digits(tv.align as int)));
            }
            let ghost g = g + spec_dec_digits(tv.align as int);
            self.o.push(10u8);
            proof {
                assert(self.o@ =~= tbase + (g + seq![10u8]));
            }
            let ghost g = g + seq![10u8];
            match &type_.kind {
                TypeKind::Struct(s) => self.format_struct(s),
                TypeKind::Enum(e) => self.format_enum(e),
            }
            let ghost piece = (match tv.kind {
                TypeKindV::Struct(s) => spec_render_items(s.items, Seq::<u8>::empty()),
                TypeKindV::Enum(e) => spec_render_enum(e),
            });
            proof {
                assert(self.o@ =~= tbase + (g + piece));
            }
            let ghost g = g + piece;
            if let Some(padding) = type_.end_padding {
                let mut p = pad7(padding);
                self.o.append(&mut p);
                let mut l = lit_end_padding_vec();
                self.o.append(&mut l);
            }
            let ghost piece = (match tv.end_padding {
                Some(p) => spec_pad7(p as int) + lit_end_padding() + seq![10u8],
                None => Seq::<u8>::empty(),
            });
            if let Some(_) = type_.end_padding {
                self.o.push(10u8);
            }
            proof {
                assert(self.o@ =~= tbase + (g + piece));
            }
            let ghost g = g + piece;
            self.o.push(10u8);
            proof {
                assert(self.o@ =~= tbase + (g + seq![10u8]));
                assert(g + seq![10u8] == spec_render_type(tv));
                assert(dv.take(i as int + 1).drop_last() =~= dv.take(i as int));
                assert(dv.take(i as int + 1).last() == dv[i as int]);
                assert(self.o@ =~= base + spec_render_types(dv.take(i as int + 1)));
            }
        }
        proof {
            assert(dv.take(dv.len() as int) =~= dv);
        }
    }

    fn finalize(self) -> (r: Vec<u8>)
        ensures
            r@ == spec_chop(spec_chop(self.o@)),
    {
        let mut o = self.o;
        let ghost one = spec_chop(o@);
        o.pop();
        proof {
            assert(o@ =~= one);
        }
        o.pop();
        proof {
            assert(o@ =~= spec_chop(one));
        }
        o
    }
}

/// Renders the final sequence: each block in order (reversed when
/// configured), or `no types found` when nothing is left.
pub fn format(types: Vec<Type>, options: &Options) -> (r: Vec<u8>)
    ensures
        r@ == spec_format(types.deep_view(), options.deep_view()),
{
    let ghost orig = types.deep_view();
    if types.len() == 0 {
        let mut v: Vec<u8> = Vec::new();
        v.push(110u8);
        v.push(111u8);
        v.push(32u8);
        v.push(116u8);
        v.push(121u8);
        v.push(112u8);
        v.push(101u8);
        v.push(115u8);
        v.push(32u8);
        v.push(102u8);
        v.push(111u8);
        v.push(117u8);
        v.push(110u8);
        v.push(100u8);
        assert(v@ =~= lit_no_types());
        return v;
    }
    let mut ts = types;
    if options.reverse {
        let mut rev: Vec<Type> = Vec::new();
        while ts.len() > 0
            invariant
                ts@.len() + rev@.len() == orig.len(),
                ts.deep_view() =~= orig.take(ts@.len() as int),
                rev.deep_view() =~= spec_reverse_types(orig).take(rev@.len() as int),
            decreases ts@.len(),
        {
            let ghost tspre = ts.deep_view();
            let ghost tsprev: Seq<Type> = ts@;
            let t = ts.pop().unwrap();
            proof {
                crate::schema::lemma_vec_deep_view(&ts);
                assert(tspre =~= crate::schema::deep_seq(tsprev));
                assert(tspre[tsprev.len() - 1] == tsprev[tsprev.len() - 1].deep_view());
                assert(t.deep_view() == orig[tsprev.len() - 1]);
                assert(ts.deep_view() =~= orig.take(ts@.len() as int));
            }
            let ghost revpre = rev.deep_view();
            let ghost revprev: Seq<Type> = rev@;
            rev.push(t);
            proof {
                crate::schema::lemma_vec_deep_view(&rev);
                crate::schema::lemma_deep_seq_push(revprev, rev@.last());
                assert(revpre =~= crate::schema::deep_seq(revprev));
                assert(spec_reverse_types(orig)[revprev.len() as int] == orig[orig.len() - 1
                    - revprev.len()]);
                assert(rev.deep_view() =~= spec_reverse_types(orig).take(rev@.len() as int));
            }
        }
        proof {
            assert(spec_reverse_types(orig).take(spec_reverse_types(orig).len() as int)
                =~= spec_reverse_types(orig));
            assert(rev.deep_view() =~= spec_reverse_types(orig));
        }
        ts = rev;
    }
    let mut formatter = Formatter { o: Vec::new() };
    proof {
        assert(formatter.o@ =~= Seq::<u8>::empty());
    }
    formatter.format_types(&ts);
    proof {
        assert(formatter.o@ =~= spec_render_types(ts.deep_view()));
    }
    formatter.finalize()
}

} // verus!
