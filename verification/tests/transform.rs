use top_type_sizes::options::Options;
use top_type_sizes::schema::{
    EnumType, EnumVariant, Field, FieldKind, FieldOrPadding, StructType, Type, TypeKind,
};
use top_type_sizes::transformer::{
    dedup_types, is_wrapper, remove_small_fields, sort_and_merge_variants,
    sort_fields_and_remove_paddings, sort_types, transform,
};

fn field(name: &[u8], size: usize) -> FieldOrPadding {
    FieldOrPadding::Field(Field {
        kind: FieldKind::AdtField,
        name: name.to_vec(),
        size,
        align: None,
        offset: None,
        local_type: None,
    })
}

fn struct_type(name: &[u8], size: usize, items: Vec<FieldOrPadding>) -> Type {
    Type {
        name: name.to_vec(),
        size,
        align: 8,
        kind: TypeKind::Struct(StructType { items }),
        end_padding: None,
    }
}

fn variant(name: &[u8], size: usize, items: Vec<FieldOrPadding>) -> EnumVariant {
    EnumVariant { name: name.to_vec(), size, items }
}

fn enum_type(name: &[u8], size: usize, variants: Vec<EnumVariant>) -> Type {
    Type {
        name: name.to_vec(),
        size,
        align: 8,
        kind: TypeKind::Enum(EnumType { discriminant_size: None, variants }),
        end_padding: None,
    }
}

#[test]
fn wrapper_with_full_size_field() {
    // A struct of size 8 whose single field also has size 8 is a wrapper.
    let t = struct_type(b"W", 8, vec![field(b"0", 8)]);
    assert!(is_wrapper(&t));
}

#[test]
fn end_padding_breaks_wrapper() {
    let mut t = struct_type(b"W", 8, vec![field(b"0", 8)]);
    t.end_padding = Some(1);
    assert!(!is_wrapper(&t));
}

#[test]
fn zero_sized_items_keep_wrapper() {
    let t = struct_type(b"W", 8, vec![field(b"a", 0), field(b"b", 8)]);
    assert!(is_wrapper(&t));
}

#[test]
fn discriminant_breaks_enum_wrapper() {
    let mut t = enum_type(b"E", 8, vec![variant(b"A", 8, vec![field(b"0", 8)])]);
    assert!(is_wrapper(&t));
    match &mut t.kind {
        TypeKind::Enum(e) => e.discriminant_size = Some(1),
        _ => unreachable!(),
    }
    assert!(!is_wrapper(&t));
}

#[test]
fn sort_is_descending_by_size_then_name() {
    let types = vec![
        struct_type(b"B", 4, vec![]),
        struct_type(b"A", 8, vec![]),
        struct_type(b"C", 8, vec![]),
        struct_type(b"A", 4, vec![]),
    ];
    let sorted = sort_types(types);
    let keys: Vec<(usize, Vec<u8>)> =
        sorted.iter().map(|t| (t.size, t.name.clone())).collect();
    assert_eq!(
        keys,
        vec![
            (8, b"A".to_vec()),
            (8, b"C".to_vec()),
            (4, b"A".to_vec()),
            (4, b"B".to_vec()),
        ]
    );
}

#[test]
fn sort_is_stable_for_equal_keys() {
    let mut a1 = struct_type(b"A", 8, vec![field(b"x", 8)]);
    a1.align = 1;
    let mut a2 = struct_type(b"A", 8, vec![field(b"y", 8)]);
    a2.align = 2;
    let sorted = sort_types(vec![a1.clone(), a2.clone()]);
    assert_eq!(sorted, vec![a1, a2]);
}

#[test]
fn dedup_collapses_adjacent_equal_types() {
    let t = struct_type(b"A", 8, vec![field(b"x", 8)]);
    let other = struct_type(b"B", 8, vec![]);
    let deduped = dedup_types(vec![t.clone(), t.clone(), other.clone(), t.clone()]);
    assert_eq!(deduped, vec![t.clone(), other, t]);
}

#[test]
fn dedup_keeps_structurally_different_types() {
    // Same name and size, different field order: not equal, both stay.
    let a = struct_type(b"A", 8, vec![field(b"x", 4), field(b"y", 4)]);
    let b = struct_type(b"A", 8, vec![field(b"y", 4), field(b"x", 4)]);
    let deduped = dedup_types(vec![a.clone(), b.clone()]);
    assert_eq!(deduped, vec![a, b]);
}

#[test]
fn merge_joins_variants_with_equal_layout() {
    // Two equal-size variants with item-for-item equal lists merge into one
    // named "A, B"; an equal-size variant with different items stays.
    let t = enum_type(
        b"E",
        16,
        vec![
            variant(b"A", 8, vec![field(b"0", 8)]),
            variant(b"B", 8, vec![field(b"0", 8)]),
            variant(b"C", 8, vec![field(b"0", 4)]),
        ],
    );
    let merged = sort_and_merge_variants(t);
    match &merged.kind {
        TypeKind::Enum(e) => {
            assert_eq!(e.variants.len(), 2);
            assert_eq!(e.variants[0].name, b"A, B".to_vec());
            assert_eq!(e.variants[0].items, vec![field(b"0", 8)]);
            assert_eq!(e.variants[1].name, b"C".to_vec());
        }
        other => panic!("expected an enum, got {other:?}"),
    }
}

#[test]
fn merge_resorts_variants_by_size() {
    let t = enum_type(
        b"E",
        16,
        vec![variant(b"Small", 4, vec![]), variant(b"Big", 16, vec![field(b"0", 16)])],
    );
    let merged = sort_and_merge_variants(t);
    match &merged.kind {
        TypeKind::Enum(e) => {
            assert_eq!(e.variants[0].name, b"Big".to_vec());
            assert_eq!(e.variants[1].name, b"Small".to_vec());
        }
        other => panic!("expected an enum, got {other:?}"),
    }
}

#[test]
fn remove_small_fields_drops_below_threshold() {
    // hideLess=16 on fields of size 24 and 8 keeps only the 24-byte field.
    let t = struct_type(b"S", 32, vec![field(b"big", 24), field(b"small", 8)]);
    let trimmed = remove_small_fields(t, 16);
    match &trimmed.kind {
        TypeKind::Struct(s) => assert_eq!(s.items, vec![field(b"big", 24)]),
        other => panic!("expected a struct, got {other:?}"),
    }
}

#[test]
fn remove_small_fields_clears_small_discriminant_and_end_padding() {
    let mut t = enum_type(b"E", 32, vec![variant(b"A", 8, vec![field(b"0", 8)])]);
    match &mut t.kind {
        TypeKind::Enum(e) => e.discriminant_size = Some(4),
        _ => unreachable!(),
    }
    t.end_padding = Some(2);
    let trimmed = remove_small_fields(t, 8);
    assert_eq!(trimmed.end_padding, None);
    match &trimmed.kind {
        TypeKind::Enum(e) => assert_eq!(e.discriminant_size, None),
        other => panic!("expected an enum, got {other:?}"),
    }
}

#[test]
fn sort_fields_strips_paddings_and_orders_by_size() {
    let mut t = struct_type(
        b"S",
        32,
        vec![field(b"a", 4), FieldOrPadding::Padding(8), field(b"b", 16)],
    );
    t.end_padding = Some(4);
    let sorted = sort_fields_and_remove_paddings(t);
    assert_eq!(sorted.end_padding, None);
    match &sorted.kind {
        TypeKind::Struct(s) => {
            assert_eq!(s.items, vec![field(b"b", 16), field(b"a", 4)]);
        }
        other => panic!("expected a struct, got {other:?}"),
    }
}

#[test]
fn truncate_keeps_the_two_largest() {
    // limit=2 over five types returns exactly the two largest.
    let types = vec![
        struct_type(b"A", 1, vec![]),
        struct_type(b"B", 5, vec![]),
        struct_type(b"C", 3, vec![]),
        struct_type(b"D", 4, vec![]),
        struct_type(b"E", 2, vec![]),
    ];
    let options = Options { limit: Some(2), ..Options::default() };
    let out = transform(types, &options);
    assert_eq!(out, vec![struct_type(b"B", 5, vec![]), struct_type(b"D", 4, vec![])]);
}

#[test]
fn filter_by_minimum_size() {
    let types = vec![struct_type(b"A", 8, vec![]), struct_type(b"B", 2, vec![])];
    let options = Options { hide_less: Some(4), ..Options::default() };
    let out = transform(types, &options);
    assert_eq!(out, vec![struct_type(b"A", 8, vec![])]);
}

#[test]
fn filter_by_exclude_pattern() {
    // The pattern reaches the regex engine: a type whose name matches is
    // dropped, the other stays.
    let types = vec![
        struct_type(b"alloc::string::String", 24, vec![]),
        struct_type(b"core::option::Option<u8>", 2, vec![]),
    ];
    let options =
        Options { exclude: vec!["string".to_string()], ..Options::default() };
    let out = transform(types, &options);
    assert_eq!(out, vec![struct_type(b"core::option::Option<u8>", 2, vec![])]);
}

#[test]
fn filter_by_include_pattern() {
    let types = vec![
        struct_type(b"alloc::string::String", 24, vec![]),
        struct_type(b"core::option::Option<u8>", 2, vec![]),
    ];
    let options =
        Options { filter: vec!["Option<.*>".to_string()], ..Options::default() };
    let out = transform(types, &options);
    assert_eq!(out, vec![struct_type(b"core::option::Option<u8>", 2, vec![])]);
}

#[test]
fn invalid_pattern_matches_nothing() {
    let types = vec![struct_type(b"A", 8, vec![])];
    let options = Options { exclude: vec!["(".to_string()], ..Options::default() };
    assert!(!options.patterns_valid());
    // An invalid exclude pattern excludes nothing.
    let out = transform(types.clone(), &options);
    assert_eq!(out, types);
}

#[test]
fn remove_wrappers_drops_wrapper_types() {
    let wrapper = struct_type(b"W", 8, vec![field(b"0", 8)]);
    let real = struct_type(b"R", 8, vec![field(b"a", 4), field(b"b", 4)]);
    let options = Options { remove_wrappers: true, ..Options::default() };
    let out = transform(vec![wrapper, real.clone()], &options);
    assert_eq!(out, vec![real]);
}

#[test]
fn expand_follows_field_type_names() {
    let mut root = struct_type(b"root", 32, vec![]);
    match &mut root.kind {
        TypeKind::Struct(s) => s.items.push(FieldOrPadding::Field(Field {
            kind: FieldKind::AdtField,
            name: b"inner".to_vec(),
            size: 16,
            align: None,
            offset: None,
            local_type: Some(b"child".to_vec()),
        })),
        _ => unreachable!(),
    }
    let child = struct_type(b"child", 16, vec![]);
    let stranger = struct_type(b"stranger", 8, vec![]);
    let options = Options { expand: vec!["root".to_string()], ..Options::default() };
    let out = transform(vec![root.clone(), child.clone(), stranger], &options);
    assert_eq!(out, vec![root, child]);
}

#[test]
fn expand_by_size_follows_field_sizes() {
    let root = struct_type(b"root", 32, vec![field(b"inner", 16)]);
    let child = struct_type(b"child", 16, vec![]);
    let stranger = struct_type(b"stranger", 8, vec![]);
    let options = Options {
        expand: vec!["root".to_string()],
        expand_by_size: true,
        ..Options::default()
    };
    let out = transform(vec![root.clone(), child.clone(), stranger], &options);
    assert_eq!(out, vec![root, child]);
}

#[test]
fn expand_never_reconsiders_dropped_types() {
    // "child" is scanned before "root" seeds it, so it is gone for good.
    let child = struct_type(b"child", 64, vec![]);
    let root = struct_type(b"root", 32, vec![FieldOrPadding::Field(Field {
        kind: FieldKind::AdtField,
        name: b"inner".to_vec(),
        size: 16,
        align: None,
        offset: None,
        local_type: Some(b"child".to_vec()),
    })]);
    let options = Options { expand: vec!["root".to_string()], ..Options::default() };
    let out = transform(vec![child, root.clone()], &options);
    assert_eq!(out, vec![root]);
}

#[test]
fn transform_output_is_sorted() {
    let types = vec![
        struct_type(b"B", 4, vec![]),
        struct_type(b"A", 8, vec![]),
        struct_type(b"C", 8, vec![]),
        struct_type(b"A", 4, vec![]),
    ];
    let out = transform(types, &Options::default());
    for w in out.windows(2) {
        assert!(
            w[0].size > w[1].size || (w[0].size == w[1].size && w[0].name <= w[1].name)
        );
    }
}

#[test]
fn transform_is_idempotent_on_its_output() {
    let types = vec![
        struct_type(b"B", 4, vec![field(b"x", 2), field(b"y", 2)]),
        struct_type(b"A", 8, vec![field(b"0", 8)]),
        struct_type(b"A", 8, vec![field(b"0", 8)]),
        enum_type(
            b"E",
            16,
            vec![
                variant(b"A", 8, vec![field(b"0", 8)]),
                variant(b"B", 8, vec![field(b"0", 8)]),
            ],
        ),
    ];
    let options = Options { limit: Some(3), ..Options::default() };
    let once = transform(types, &options);
    let twice = transform(once.clone(), &options);
    assert_eq!(twice, once);
}

#[test]
fn default_options_are_neutral() {
    let options = Options::default();
    assert_eq!(options.limit, None);
    assert!(!options.reverse);
    assert!(!options.remove_wrappers);
    assert_eq!(options.hide_less, None);
    assert!(!options.sort_fields);
    assert!(options.filter.is_empty());
    assert!(options.exclude.is_empty());
    assert!(options.expand.is_empty());
    assert!(!options.expand_by_size);
    assert!(options.patterns_valid());
}

#[test]
fn neutral_options_sort_dedup_and_merge_only() {
    let a = struct_type(b"A", 8, vec![field(b"x", 8)]);
    let out = transform(vec![a.clone(), a.clone()], &Options::default());
    assert_eq!(out, vec![a]);
}

#[test]
fn expand_by_size_counts_annotated_fields() {
    // In size mode an annotated field contributes both its type name and its
    // size to the visited sets.
    let root = struct_type(b"root", 32, vec![FieldOrPadding::Field(Field {
        kind: FieldKind::AdtField,
        name: b"inner".to_vec(),
        size: 16,
        align: None,
        offset: None,
        local_type: Some(b"leaf".to_vec()),
    })]);
    let sized = struct_type(b"other", 16, vec![]);
    let leaf = struct_type(b"leaf", 8, vec![]);
    let options = Options {
        expand: vec!["root".to_string()],
        expand_by_size: true,
        ..Options::default()
    };
    let out = transform(vec![root.clone(), sized.clone(), leaf.clone()], &options);
    assert_eq!(out, vec![root, sized, leaf]);
}
