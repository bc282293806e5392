use top_type_sizes::parser::{indent, parse};
use top_type_sizes::reader::refine;
use top_type_sizes::schema::{Field, FieldKind, FieldOrPadding, StructType, Type, TypeKind};

#[test]
fn test_indent() {
    // One level is four spaces; the measured level must match exactly.
    assert_eq!(indent(&b"\n    ".to_vec(), 0, 1), Some(5));
    assert_ne!(indent(&b"\n        ".to_vec(), 0, 1), Some(9));
    assert_eq!(indent(&b"\n        ".to_vec(), 0, 2), Some(9));
    assert_ne!(indent(&b"\n    ".to_vec(), 0, 2), Some(5));
}

#[test]
fn parses_single_struct() {
    let input = b"type: `T`: 8 bytes, alignment: 4 bytes\n    field `.0`: 8 bytes".to_vec();
    let expected = Type {
        name: b"T".to_vec(),
        size: 8,
        align: 4,
        kind: TypeKind::Struct(StructType {
            items: vec![FieldOrPadding::Field(Field {
                kind: FieldKind::AdtField,
                name: b"0".to_vec(),
                size: 8,
                align: None,
                offset: None,
                local_type: None,
            })],
        }),
        end_padding: None,
    };
    assert_eq!(parse(&input), Ok(vec![expected]));
}

#[test]
fn parses_field_attributes() {
    let input =
        b"type: `S`: 16 bytes, alignment: 8 bytes\n    field `.buf`: 16 bytes, offset: 0 bytes, alignment: 8 bytes"
            .to_vec();
    let types = parse(&input).unwrap();
    assert_eq!(types.len(), 1);
    match &types[0].kind {
        TypeKind::Struct(s) => {
            assert_eq!(s.items.len(), 1);
            match &s.items[0] {
                FieldOrPadding::Field(f) => {
                    assert_eq!(f.name, b"buf".to_vec());
                    assert_eq!(f.size, 16);
                    assert_eq!(f.offset, Some(0));
                    assert_eq!(f.align, Some(8));
                    assert_eq!(f.local_type, None);
                }
                other => panic!("expected a field, got {other:?}"),
            }
        }
        other => panic!("expected a struct, got {other:?}"),
    }
}

#[test]
fn parses_enum_with_discriminant_and_padding() {
    let input = "type: `E`: 48 bytes, alignment: 8 bytes\n    discriminant: 8 bytes\n    variant `Ok`: 40 bytes\n        padding: 16 bytes\n        field `.0`: 24 bytes, alignment: 8 bytes\n    variant `Err`: 40 bytes\n        field `.0`: 40 bytes"
    .as_bytes()
    .to_vec();
    let types = parse(&input).unwrap();
    assert_eq!(types.len(), 1);
    assert_eq!(types[0].name, b"E".to_vec());
    match &types[0].kind {
        TypeKind::Enum(e) => {
            assert_eq!(e.discriminant_size, Some(8));
            assert_eq!(e.variants.len(), 2);
            assert_eq!(e.variants[0].name, b"Ok".to_vec());
            assert_eq!(e.variants[0].size, 40);
            assert_eq!(e.variants[0].items.len(), 2);
            assert_eq!(e.variants[0].items[0], FieldOrPadding::Padding(16));
            assert_eq!(e.variants[1].name, b"Err".to_vec());
        }
        other => panic!("expected an enum, got {other:?}"),
    }
}

#[test]
fn parses_end_padding_and_upvar() {
    let input = "type: `F`: 24 bytes, alignment: 8 bytes\n    upvar `.x`: 16 bytes\n    local `.y`: 4 bytes, type: {async fn body}\n    end padding: 4 bytes"
    .as_bytes()
    .to_vec();
    let types = parse(&input).unwrap();
    assert_eq!(types.len(), 1);
    assert_eq!(types[0].end_padding, Some(4));
    match &types[0].kind {
        TypeKind::Struct(s) => {
            match &s.items[0] {
                FieldOrPadding::Field(f) => {
                    assert_eq!(f.kind, FieldKind::Upvar);
                    assert_eq!(f.name, b"x".to_vec());
                }
                other => panic!("expected a field, got {other:?}"),
            }
            match &s.items[1] {
                FieldOrPadding::Field(f) => {
                    assert_eq!(f.kind, FieldKind::GeneratorLocal);
                    assert_eq!(f.local_type, Some(b"{async fn body}".to_vec()));
                }
                other => panic!("expected a field, got {other:?}"),
            }
        }
        other => panic!("expected a struct, got {other:?}"),
    }
}

#[test]
fn parses_two_consecutive_types() {
    let input = "type: `A`: 8 bytes, alignment: 8 bytes\n    field `.0`: 8 bytes\ntype: `B`: 4 bytes, alignment: 4 bytes\n    field `.0`: 4 bytes"
    .as_bytes()
    .to_vec();
    let types = parse(&input).unwrap();
    assert_eq!(types.len(), 2);
    assert_eq!(types[0].name, b"A".to_vec());
    assert_eq!(types[1].name, b"B".to_vec());
}

#[test]
fn empty_input_parses_to_nothing() {
    assert_eq!(parse(&Vec::new()), Ok(Vec::new()));
}

#[test]
fn rejects_overdeep_field_with_line_number() {
    // The field line sits one level deeper than the grammar expects, so
    // parsing stops before it; the error names line 2.
    let input = b"type: `T`: 8 bytes, alignment: 4 bytes\n        field `.0`: 8 bytes".to_vec();
    let err = parse(&input).unwrap_err();
    assert_eq!(err.line, 2);
}

#[test]
fn rejects_garbage_with_context() {
    let input = b"not a report".to_vec();
    let err = parse(&input).unwrap_err();
    assert_eq!(err.line, 1);
    let context = String::from_utf8(err.context).unwrap();
    assert_eq!(context, ">>>  1 \u{2502} not a report");
}

#[test]
fn rejects_oversized_number() {
    let input = b"type: `T`: 99999999999999999999999999 bytes, alignment: 4 bytes".to_vec();
    let err = parse(&input).unwrap_err();
    assert_eq!(err.line, 1);
}

#[test]
fn refine_strips_prefix_and_drops_other_lines() {
    let raw = "warning: something\nprint-type-size type: `T`: 8 bytes, alignment: 4 bytes\nprint-type-size     field `.0`: 8 bytes\nnote: done\n"
    .as_bytes()
    .to_vec();
    let refined = refine(&raw);
    assert_eq!(
        refined,
        b"type: `T`: 8 bytes, alignment: 4 bytes\n    field `.0`: 8 bytes".to_vec()
    );
}

#[test]
fn refine_of_empty_input_is_empty() {
    assert_eq!(refine(&Vec::new()), Vec::<u8>::new());
}

#[test]
fn context_window_marks_the_offending_line() {
    let input = "type: `A`: 8 bytes, alignment: 8 bytes\ngarbage".as_bytes().to_vec();
    let err = parse(&input).unwrap_err();
    assert_eq!(err.line, 2);
    let context = String::from_utf8(err.context).unwrap();
    assert_eq!(
        context,
        "     1 \u{2502} type: `A`: 8 bytes, alignment: 8 bytes\n>>>  2 \u{2502} garbage"
    );
}
