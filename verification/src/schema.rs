//! The data model: one `Type` per layout record, owning a struct or enum body
//! made of fields and paddings.  Each executable type has a mathematical view
//! (`…V`) over `Seq` that the contracts of the other modules speak about.

use vstd::prelude::*;

verus! {

/// Category of a field: an ordinary ADT field, a captured upvar, or a
/// coroutine-local slot.
#[derive(Debug, Clone, Copy, PartialEq, Eq, Structural)]
pub enum FieldKind {
    AdtField,
    Upvar,
    GeneratorLocal,
}

/// A named field of a struct or of an enum variant.  `name` holds the bytes of
/// the field's name; optional attributes carry what the report gave.
#[derive(Debug, Clone, PartialEq, Eq)]
pub struct Field {
    pub kind: FieldKind,
    pub name: Vec<u8>,
    pub size: usize,
    pub align: Option<usize>,
    pub offset: Option<usize>,
    pub local_type: Option<Vec<u8>>,
}

/// One layout item: a field, or an unnamed padding range of the given size.
#[derive(Debug, Clone, PartialEq, Eq)]
pub enum FieldOrPadding {
    Field(Field),
    Padding(usize),
}

/// An enum variant: its name, its size (discriminant contribution included),
/// and its ordered items.
#[derive(Debug, Clone, PartialEq, Eq)]
pub struct EnumVariant {
    pub name: Vec<u8>,
    pub size: usize,
    pub items: Vec<FieldOrPadding>,
}

/// The body of a struct type: its ordered layout items.
#[derive(Debug, Clone, PartialEq, Eq)]
pub struct StructType {
    pub items: Vec<FieldOrPadding>,
}

/// The body of an enum type: an optional discriminant size (absent for
/// niche-optimized enums) and the ordered variants.
#[derive(Debug, Clone, PartialEq, Eq)]
pub struct EnumType {
    pub discriminant_size: Option<usize>,
    pub variants: Vec<EnumVariant>,
}

/// A type's body is either a struct or an enum.
#[derive(Debug, Clone, PartialEq, Eq)]
pub enum TypeKind {
    Struct(StructType),
    Enum(EnumType),
}

/// One layout record: name, total size, alignment, body, and optional end
/// padding.
#[derive(Debug, Clone, PartialEq, Eq)]
pub struct Type {
    pub name: Vec<u8>,
    pub size: usize,
    pub align: usize,
    pub kind: TypeKind,
    pub end_padding: Option<usize>,
}

// ---------------------------------------------------------------------------
// Mathematical views
// ---------------------------------------------------------------------------

/// View of a [`Field`].
#[verifier::ext_equal]
pub struct FieldV {
    pub kind: FieldKind,
    pub name: Seq<u8>,
    pub size: usize,
    pub align: Option<usize>,
    pub offset: Option<usize>,
    pub local_type: Option<Seq<u8>>,
}

/// View of a [`FieldOrPadding`].
#[verifier::ext_equal]
pub enum FieldOrPaddingV {
    Field(FieldV),
    Padding(usize),
}

/// View of an [`EnumVariant`].
#[verifier::ext_equal]
pub struct EnumVariantV {
    pub name: Seq<u8>,
    pub size: usize,
    pub items: Seq<FieldOrPaddingV>,
}

/// View of a [`StructType`].
#[verifier::ext_equal]
pub struct StructTypeV {
    pub items: Seq<FieldOrPaddingV>,
}

/// View of an [`EnumType`].
#[verifier::ext_equal]
pub struct EnumTypeV {
    pub discriminant_size: Option<usize>,
    pub variants: Seq<EnumVariantV>,
}

/// View of a [`TypeKind`].
#[verifier::ext_equal]
pub enum TypeKindV {
    Struct(StructTypeV),
    Enum(EnumTypeV),
}

/// View of a [`Type`].
#[verifier::ext_equal]
pub struct TypeV {
    pub name: Seq<u8>,
    pub size: usize,
    pub align: usize,
    pub kind: TypeKindV,
    pub end_padding: Option<usize>,
}

impl DeepView for Field {
    type V = FieldV;

    open spec fn deep_view(&self) -> FieldV {
        FieldV {
            kind: self.kind,
            name: self.name@,
            size: self.size,
            align: self.align,
            offset: self.offset,
            local_type: match self.local_type {
                Some(t) => Some(t@),
                None => None,
            },
        }
    }
}

impl DeepView for FieldOrPadding {
    type V = FieldOrPaddingV;

    open spec fn deep_view(&self) -> FieldOrPaddingV {
        match self {
            FieldOrPadding::Field(f) => FieldOrPaddingV::Field(f.deep_view()),
            FieldOrPadding::Padding(p) => FieldOrPaddingV::Padding(*p),
        }
    }
}

impl DeepView for EnumVariant {
    type V = EnumVariantV;

    open spec fn deep_view(&self) -> EnumVariantV {
        EnumVariantV {
            name: self.name@,
            size: self.size,
            items: self.items.deep_view(),
        }
    }
}

impl DeepView for StructType {
    type V = StructTypeV;

    open spec fn deep_view(&self) -> StructTypeV {
        StructTypeV { items: self.items.deep_view() }
    }
}

impl DeepView for EnumType {
    type V = EnumTypeV;

    open spec fn deep_view(&self) -> EnumTypeV {
        EnumTypeV {
            discriminant_size: self.discriminant_size,
            variants: self.variants.deep_view(),
        }
    }
}

impl DeepView for TypeKind {
    type V = TypeKindV;

    open spec fn deep_view(&self) -> TypeKindV {
        match self {
            TypeKind::Struct(s) => TypeKindV::Struct(s.deep_view()),
            TypeKind::Enum(e) => TypeKindV::Enum(e.deep_view()),
        }
    }
}

impl DeepView for Type {
    type V = TypeV;

    open spec fn deep_view(&self) -> TypeV {
        TypeV {
            name: self.name@,
            size: self.size,
            align: self.align,
            kind: self.kind.deep_view(),
            end_padding: self.end_padding,
        }
    }
}

/// The deep view of a byte string is its view.
pub proof fn lemma_bytes_deep_view(v: Vec<u8>)
    ensures
        v.deep_view() == v@,
{
    assert(v.deep_view() =~= v@);
}

/// The deep view of a vector indexes as the deep views of its elements.
pub proof fn lemma_deep_view_index<T: DeepView>(v: &Vec<T>, i: int)
    requires
        0 <= i < v@.len(),
    ensures
        v.deep_view()[i] == v@[i].deep_view(),
{
}

/// The element-wise deep view of a sequence.
pub open spec fn deep_seq<T: DeepView>(s: Seq<T>) -> Seq<T::V> {
    Seq::new(s.len(), |i: int| s[i].deep_view())
}

/// A vector's deep view is the element-wise deep view of its view.
pub proof fn lemma_vec_deep_view<T: DeepView>(v: &Vec<T>)
    ensures
        v.deep_view() == deep_seq(v@),
{
    assert(v.deep_view() =~= deep_seq(v@));
}

/// Removing the head of a sequence commutes with the deep view.
pub proof fn lemma_deep_seq_remove_front<T: DeepView>(s: Seq<T>)
    requires
        s.len() > 0,
    ensures
        deep_seq(s.remove(0)) == deep_seq(s).remove(0),
        deep_seq(s)[0] == s[0].deep_view(),
{
    assert(deep_seq(s.remove(0)) =~= deep_seq(s).remove(0));
}

/// Appending an element to a sequence commutes with the deep view.
pub proof fn lemma_deep_seq_push<T: DeepView>(s: Seq<T>, x: T)
    ensures
        deep_seq(s.push(x)) == deep_seq(s).push(x.deep_view()),
{
    assert(deep_seq(s.push(x)) =~= deep_seq(s).push(x.deep_view()));
}

/// Removing an element of a sequence commutes with the deep view.
pub proof fn lemma_deep_seq_remove<T: DeepView>(s: Seq<T>, k: int)
    requires
        0 <= k < s.len(),
    ensures
        deep_seq(s.remove(k)) == deep_seq(s).remove(k),
{
    assert(deep_seq(s.remove(k)) =~= deep_seq(s).remove(k));
}

/// Inserting an element into a sequence commutes with the deep view.
pub proof fn lemma_deep_seq_insert<T: DeepView>(s: Seq<T>, k: int, x: T)
    requires
        0 <= k <= s.len(),
    ensures
        deep_seq(s.insert(k, x)) == deep_seq(s).insert(k, x.deep_view()),
{
    assert(deep_seq(s.insert(k, x)) =~= deep_seq(s).insert(k, x.deep_view()));
}

impl FieldOrPaddingV {
    /// The size of an item, whichever arm it is.
    pub open spec fn size(self) -> usize {
        match self {
            FieldOrPaddingV::Field(f) => f.size,
            FieldOrPaddingV::Padding(p) => p,
        }
    }
}

// ---------------------------------------------------------------------------
// Structural equality
// ---------------------------------------------------------------------------

/// Structural equality of byte strings.
pub(crate) fn bytes_eq(a: &Vec<u8>, b: &Vec<u8>) -> (r: bool)
    ensures
        r == (a@ == b@),
{
    let r = a == b;
    proof {
        if r {
            assert(a@ =~= b@);
        } else {
            assert(!(a@ =~= b@));
        }
    }
    r
}

/// Structural equality of optional sizes.
pub(crate) fn opt_usize_eq(a: &Option<usize>, b: &Option<usize>) -> (r: bool)
    ensures
        r == (a == b),
{
    match (a, b) {
        (Some(x), Some(y)) => *x == *y,
        (None, None) => true,
        _ => false,
    }
}

/// Structural equality of two fields: every attribute must agree.
pub fn field_eq(a: &Field, b: &Field) -> (r: bool)
    ensures
        r == (a.deep_view() == b.deep_view()),
{
    let kind_ok = a.kind == b.kind;
    let name_ok = bytes_eq(&a.name, &b.name);
    let size_ok = a.size == b.size;
    let align_ok = opt_usize_eq(&a.align, &b.align);
    let offset_ok = opt_usize_eq(&a.offset, &b.offset);
    let lt_ok = match (&a.local_type, &b.local_type) {
        (Some(x), Some(y)) => bytes_eq(x, y),
        (None, None) => true,
        _ => false,
    };
    let r = kind_ok && name_ok && size_ok && align_ok && offset_ok && lt_ok;
    proof {
        if r {
            assert(a.deep_view() =~= b.deep_view());
        }
    }
    r
}

/// Structural equality of two items.
pub fn item_eq(a: &FieldOrPadding, b: &FieldOrPadding) -> (r: bool)
    ensures
        r == (a.deep_view() == b.deep_view()),
{
    match (a, b) {
        (FieldOrPadding::Field(f), FieldOrPadding::Field(g)) => field_eq(f, g),
        (FieldOrPadding::Padding(p), FieldOrPadding::Padding(q)) => *p == *q,
        _ => false,
    }
}

/// Structural equality of two item lists, order-sensitively.
pub fn items_eq(a: &Vec<FieldOrPadding>, b: &Vec<FieldOrPadding>) -> (r: bool)
    ensures
        r == (a.deep_view() == b.deep_view()),
{
    if a.len() != b.len() {
        return false;
    }
    let ghost av = a.deep_view();
    let ghost bv = b.deep_view();
    for i in 0..a.len()
        invariant
            av == a.deep_view(),
            bv == b.deep_view(),
            a@.len() == b@.len(),
            forall|j: int| 0 <= j < i ==> av[j] == bv[j],
    {
        let e = item_eq(&a[i], &b[i]);
        proof {
            lemma_deep_view_index(a, i as int);
            lemma_deep_view_index(b, i as int);
        }
        if !e {
            return false;
        }
    }
    proof {
        assert(av =~= bv);
    }
    true
}

/// Structural equality of two enum variants.
pub fn variant_eq(a: &EnumVariant, b: &EnumVariant) -> (r: bool)
    ensures
        r == (a.deep_view() == b.deep_view()),
{
    let name_ok = bytes_eq(&a.name, &b.name);
    let size_ok = a.size == b.size;
    let items_ok = items_eq(&a.items, &b.items);
    let r = name_ok && size_ok && items_ok;
    proof {
        if r {
            assert(a.deep_view() =~= b.deep_view());
        }
    }
    r
}

/// Structural equality of two type bodies.
pub fn kind_eq(a: &TypeKind, b: &TypeKind) -> (r: bool)
    ensures
        r == (a.deep_view() == b.deep_view()),
{
    match (a, b) {
        (TypeKind::Struct(s), TypeKind::Struct(t)) => {
            let r = items_eq(&s.items, &t.items);
            proof {
                if r {
                    assert(s.deep_view() =~= t.deep_view());
                }
            }
            r
        },
        (TypeKind::Enum(e), TypeKind::Enum(f)) => {
            proof {
                assert(a.deep_view() == TypeKindV::Enum(e.deep_view()));
                assert(b.deep_view() == TypeKindV::Enum(f.deep_view()));
            }
            let disc_ok = opt_usize_eq(&e.discriminant_size, &f.discriminant_size);
            if !disc_ok {
                return false;
            }
            if e.variants.len() != f.variants.len() {
                proof {
                    assert(e.variants.deep_view().len() != f.variants.deep_view().len());
                }
                return false;
            }
            let ghost ev = e.variants.deep_view();
            let ghost fv = f.variants.deep_view();
            for i in 0..e.variants.len()
                invariant
                    ev == e.variants.deep_view(),
                    fv == f.variants.deep_view(),
                    a.deep_view() == TypeKindV::Enum(e.deep_view()),
                    b.deep_view() == TypeKindV::Enum(f.deep_view()),
                    e.variants@.len() == f.variants@.len(),
                    forall|j: int| 0 <= j < i ==> ev[j] == fv[j],
            {
                let v = variant_eq(&e.variants[i], &f.variants[i]);
                proof {
                    lemma_deep_view_index(&e.variants, i as int);
                    lemma_deep_view_index(&f.variants, i as int);
                }
                if !v {
                    return false;
                }
            }
            proof {
                assert(ev =~= fv);
                assert(e.deep_view() =~= f.deep_view());
            }
            true
        },
        _ => false,
    }
}

/// Full structural equality of two types: same name, size, alignment, end
/// padding, and item-for-item equal bodies.
pub fn type_eq(a: &Type, b: &Type) -> (r: bool)
    ensures
        r == (a.deep_view() == b.deep_view()),
{
    let name_ok = bytes_eq(&a.name, &b.name);
    let size_ok = a.size == b.size;
    let align_ok = a.align == b.align;
    let pad_ok = opt_usize_eq(&a.end_padding, &b.end_padding);
    if !(name_ok && size_ok && align_ok && pad_ok) {
        return false;
    }
    let r = kind_eq(&a.kind, &b.kind);
    proof {
        if r {
            assert(a.deep_view() =~= b.deep_view());
        }
    }
    r
}

impl FieldOrPadding {
    /// Uniform size accessor over fields and paddings.
    pub fn size(&self) -> (r: usize)
        ensures
            r == self.deep_view().size(),
    {
        match self {
            FieldOrPadding::Field(f) => f.size,
            FieldOrPadding::Padding(p) => *p,
        }
    }
}

} // verus!
