use top_type_sizes::formatter::is_wrapping_variant;
use top_type_sizes::options::Options;
use top_type_sizes::schema::{
    EnumType, EnumVariant, Field, FieldKind, FieldOrPadding, StructType, Type, TypeKind,
};

fn field(name: &[u8], size: usize) -> FieldOrPadding {
    FieldOrPadding::Field(Field {
        kind: FieldKind::AdtField,
        name: name.to_vec(),
        size,
        align: None,
        offset: None,
        local_type: None,
    })
}

fn render(types: Vec<Type>, options: &Options) -> String {
    String::from_utf8(top_type_sizes::formatter::format(types, options)).unwrap()
}

#[test]
fn empty_sequence_renders_placeholder() {
    assert_eq!(render(Vec::new(), &Options::default()), "no types found");
}

#[test]
fn renders_struct_block() {
    let t = Type {
        name: b"demo::S".to_vec(),
        size: 16,
        align: 8,
        kind: TypeKind::Struct(StructType {
            items: vec![field(b"a", 12), FieldOrPadding::Padding(4)],
        }),
        end_padding: None,
    };
    let expected = "16 demo::S align=8\n     12 a\n      4 <padding>";
    assert_eq!(render(vec![t], &Options::default()), expected);
}

#[test]
fn renders_field_attributes_in_order() {
    let t = Type {
        name: b"S".to_vec(),
        size: 8,
        align: 4,
        kind: TypeKind::Struct(StructType {
            items: vec![FieldOrPadding::Field(Field {
                kind: FieldKind::Upvar,
                name: b"cap".to_vec(),
                size: 8,
                align: Some(4),
                offset: Some(0),
                local_type: Some(b"usize".to_vec()),
            })],
        }),
        end_padding: None,
    };
    let expected = "8 S align=4\n      8 cap (upvar) align=4 offset=0 type=usize";
    assert_eq!(render(vec![t], &Options::default()), expected);
}

#[test]
fn renders_enum_with_discriminant_and_end_padding() {
    let t = Type {
        name: b"E".to_vec(),
        size: 24,
        align: 8,
        kind: TypeKind::Enum(EnumType {
            discriminant_size: Some(8),
            variants: vec![EnumVariant {
                name: b"Ok".to_vec(),
                size: 16,
                items: vec![field(b"data", 16)],
            }],
        }),
        end_padding: Some(4),
    };
    let expected = "24 E align=8\n      8 <discriminant>\n     16 variant Ok\n         16 data\n      4 <end padding>";
    assert_eq!(render(vec![t], &Options::default()), expected);
}

#[test]
fn wrapping_variant_suppresses_items() {
    let wrapping = EnumVariant { name: b"W".to_vec(), size: 8, items: vec![field(b"0", 8)] };
    assert!(is_wrapping_variant(&wrapping));
    let plain = EnumVariant { name: b"P".to_vec(), size: 8, items: vec![field(b"x", 8)] };
    assert!(!is_wrapping_variant(&plain));
    let t = Type {
        name: b"E".to_vec(),
        size: 8,
        align: 8,
        kind: TypeKind::Enum(EnumType {
            discriminant_size: None,
            variants: vec![wrapping, plain],
        }),
        end_padding: None,
    };
    let expected = "8 E align=8\n      8 variant W\n      8 variant P\n          8 x";
    assert_eq!(render(vec![t], &Options::default()), expected);
}

#[test]
fn blocks_are_separated_by_one_blank_line() {
    let a = Type {
        name: b"A".to_vec(),
        size: 8,
        align: 8,
        kind: TypeKind::Struct(StructType { items: vec![] }),
        end_padding: None,
    };
    let b = Type {
        name: b"B".to_vec(),
        size: 4,
        align: 4,
        kind: TypeKind::Struct(StructType { items: vec![] }),
        end_padding: None,
    };
    let expected = "8 A align=8\n\n4 B align=4";
    assert_eq!(render(vec![a, b], &Options::default()), expected);
}

#[test]
fn reverse_renders_in_opposite_order() {
    let a = Type {
        name: b"A".to_vec(),
        size: 8,
        align: 8,
        kind: TypeKind::Struct(StructType { items: vec![] }),
        end_padding: None,
    };
    let b = Type {
        name: b"B".to_vec(),
        size: 4,
        align: 4,
        kind: TypeKind::Struct(StructType { items: vec![] }),
        end_padding: None,
    };
    let options = Options { reverse: true, ..Options::default() };
    let expected = "4 B align=4\n\n8 A align=8";
    assert_eq!(render(vec![a, b], &options), expected);
}

#[test]
fn wide_sizes_are_not_truncated() {
    let t = Type {
        name: b"S".to_vec(),
        size: 123456789,
        align: 8,
        kind: TypeKind::Struct(StructType { items: vec![field(b"big", 123456789)] }),
        end_padding: None,
    };
    let expected = "123456789 S align=8\n123456789 big";
    assert_eq!(render(vec![t], &Options::default()), expected);
}
