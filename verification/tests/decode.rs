use bluespec_decode::decode::{
    extract_bit_chunk, label_in, translate_compound, translate_data_by_category, translate_enum,
    translate_recursive, unknown_name, window_of,
};
use bluespec_decode::enums::RawEnumMember;
use bluespec_decode::layout::RawSegment;
use bluespec_decode::registry::TypeRegistry;
use bluespec_decode::schema::{EnumDefinition, TypeCategory, TypeSegment, TypeStructure};
use bluespec_decode::shape::{blank_of, get_struct_fields_info, shape_of};
use bluespec_decode::tree::{
    SubFieldTranslationResult, TranslationResult, ValueKind, ValueRepr, VariableInfo,
};
use std::collections::HashMap;

fn chars(s: &str) -> Vec<char> {
    s.chars().collect()
}

fn leaf(name: &str, msb: usize, lsb: usize, ty: &str) -> TypeSegment {
    TypeSegment {
        name: Some(name.to_string()),
        msb,
        lsb,
        ty_name: ty.to_string(),
        nested_structure: None,
    }
}

fn composite(total_width: usize, segments: Vec<TypeSegment>) -> TypeStructure {
    TypeStructure { total_width, segments, enum_definition: None }
}

fn enumerated(name: &str, total_width: usize, members: &[(u64, &str)]) -> TypeStructure {
    let mut table = HashMap::new();
    for (tag, label) in members {
        table.insert(*tag, label.to_string());
    }
    TypeStructure {
        total_width,
        segments: vec![TypeSegment {
            name: None,
            msb: total_width - 1,
            lsb: 0,
            ty_name: name.to_string(),
            nested_structure: None,
        }],
        enum_definition: Some(EnumDefinition { members: table }),
    }
}

fn bits(width: u64, digits: &str) -> TranslationResult {
    TranslationResult {
        val: ValueRepr::Bits(width, digits.to_string()),
        subfields: vec![],
        kind: ValueKind::Normal,
    }
}

fn text(label: &str) -> TranslationResult {
    TranslationResult {
        val: ValueRepr::String(label.to_string()),
        subfields: vec![],
        kind: ValueKind::Normal,
    }
}

fn missing() -> TranslationResult {
    TranslationResult { val: ValueRepr::NotPresent, subfields: vec![], kind: ValueKind::Undef }
}

fn field(name: &str, result: TranslationResult) -> SubFieldTranslationResult {
    SubFieldTranslationResult { name: name.to_string(), result }
}

fn record(fields: Vec<SubFieldTranslationResult>) -> TranslationResult {
    TranslationResult { val: ValueRepr::Struct, subfields: fields, kind: ValueKind::Normal }
}

fn outer() -> TypeStructure {
    let inner = composite(2, vec![leaf("x", 1, 0, "Bit#(2)")]);
    composite(
        3,
        vec![
            leaf("flag", 2, 2, "Bit#(1)"),
            TypeSegment {
                name: Some("sub".to_string()),
                msb: 1,
                lsb: 0,
                ty_name: "Compound".to_string(),
                nested_structure: Some(Box::new(inner)),
            },
        ],
    )
}

#[test]
fn nested_example_decodes_flag_and_sub_x() {
    let reg = TypeRegistry::new();
    let tree = translate_recursive(&reg, &outer(), 3, &chars("101"));
    let expected = record(vec![
        field("flag", bits(1, "1")),
        field("sub", record(vec![field("x", bits(2, "01"))])),
    ]);
    assert_eq!(tree, expected);
}

#[test]
fn composite_root_with_one_field_is_still_a_composite() {
    let reg = TypeRegistry::new();
    let s = composite(4, vec![leaf("only", 3, 0, "Bit#(4)")]);
    let tree = translate_recursive(&reg, &s, 4, &chars("1010"));
    assert_eq!(tree, record(vec![field("only", bits(4, "1010"))]));
}

#[test]
fn all_zero_window_of_a_bits_leaf_is_kept_literally() {
    let reg = TypeRegistry::new();
    for n in [1usize, 2, 7, 64, 65, 130] {
        let s = composite(n, vec![leaf("raw", n - 1, 0, "Bit#(n)")]);
        let zeros = "0".repeat(n);
        let tree = translate_recursive(&reg, &s, n, &chars(&zeros));
        assert_eq!(tree, record(vec![field("raw", bits(n as u64, &zeros))]));
    }
}

#[test]
fn enum_of_width_one_names_both_tags() {
    let reg = TypeRegistry::new();
    let e = enumerated("Ab", 1, &[(0, "A"), (1, "B")]);
    assert_eq!(translate_recursive(&reg, &e, 1, &chars("0")), text("A"));
    assert_eq!(translate_recursive(&reg, &e, 1, &chars("1")), text("B"));
}

#[test]
fn enum_tag_out_of_table_is_unknown_not_a_failure() {
    let reg = TypeRegistry::new();
    let e = enumerated("Ab", 2, &[(0, "A"), (1, "B")]);
    assert_eq!(translate_recursive(&reg, &e, 2, &chars("11")), text("Unknown(3)"));
    assert_eq!(translate_recursive(&reg, &e, 2, &chars("10")), text("Unknown(2)"));
}

#[test]
fn unknown_name_writes_the_tag_in_decimal() {
    assert_eq!(unknown_name(0), "Unknown(0)");
    assert_eq!(unknown_name(9), "Unknown(9)");
    assert_eq!(unknown_name(10), "Unknown(10)");
    assert_eq!(unknown_name(1234567890), "Unknown(1234567890)");
    assert_eq!(unknown_name(u64::MAX), "Unknown(18446744073709551615)");
}

#[test]
fn enum_digits_that_are_not_binary_read_as_tag_zero() {
    let mut table = HashMap::new();
    table.insert(0u64, "Idle".to_string());
    table.insert(5u64, "Busy".to_string());
    let def = EnumDefinition { members: table };
    assert_eq!(label_in(Some(&def), &chars("x1")), "Idle");
    assert_eq!(label_in(Some(&def), &chars("")), "Idle");
    assert_eq!(label_in(Some(&def), &chars("+")), "Idle");
    assert_eq!(label_in(Some(&def), &chars("101")), "Busy");
    assert_eq!(label_in(Some(&def), &chars("+101")), "Busy");
    assert_eq!(label_in(Some(&def), &chars("0000101")), "Busy");
    assert_eq!(label_in(Some(&def), &chars("11")), "Unknown(3)");
    assert_eq!(label_in(None, &chars("11")), "Unknown(3)");
}

#[test]
fn enum_digits_beyond_64_bits_read_as_tag_zero() {
    let mut table = HashMap::new();
    table.insert(0u64, "Zero".to_string());
    let def = EnumDefinition { members: table };
    let wide = "1".repeat(65);
    assert_eq!(label_in(Some(&def), &chars(&wide)), "Zero");
    let max = "1".repeat(64);
    assert_eq!(label_in(Some(&def), &chars(&max)), "Unknown(18446744073709551615)");
    let padded = format!("{}{}", "0".repeat(10), "1".repeat(64));
    assert_eq!(label_in(Some(&def), &chars(&padded)), "Unknown(18446744073709551615)");
}

#[test]
fn digits_shorter_than_the_type_blank_the_fields_they_miss() {
    let reg = TypeRegistry::new();
    let tree = translate_recursive(&reg, &outer(), 1, &chars("1"));
    let blank_sub = TranslationResult {
        val: ValueRepr::Struct,
        subfields: vec![field("x", missing())],
        kind: ValueKind::Undef,
    };
    assert_eq!(tree, record(vec![field("flag", bits(1, "1")), field("sub", blank_sub)]));
}

#[test]
fn no_digits_at_all_blank_every_field() {
    let reg = TypeRegistry::new();
    let tree = translate_recursive(&reg, &outer(), 0, &[]);
    let blank_sub = TranslationResult {
        val: ValueRepr::Struct,
        subfields: vec![field("x", missing())],
        kind: ValueKind::Undef,
    };
    assert_eq!(tree, record(vec![field("flag", missing()), field("sub", blank_sub)]));
}

#[test]
fn a_missing_field_does_not_stop_its_siblings() {
    let reg = TypeRegistry::new();
    let s = composite(
        4,
        vec![leaf("low", 1, 0, "Bit#(2)"), leaf("high", 3, 2, "Bit#(2)")],
    );
    let tree = translate_recursive(&reg, &s, 2, &chars("10"));
    assert_eq!(tree, record(vec![field("low", missing()), field("high", bits(2, "10"))]));
}

#[test]
fn bounds_out_of_order_or_beyond_the_width_blank_the_field() {
    let reg = TypeRegistry::new();
    let s = composite(
        2,
        vec![leaf("swapped", 0, 1, "Bit#(2)"), leaf("beyond", 5, 0, "Bit#(6)"), leaf("ok", 1, 1, "Bool")],
    );
    let tree = translate_recursive(&reg, &s, 2, &chars("10"));
    assert_eq!(
        tree,
        record(vec![
            field("swapped", missing()),
            field("beyond", missing()),
            field("ok", bits(1, "1")),
        ])
    );
}

#[test]
fn fields_are_placed_by_their_bounds_not_by_their_order() {
    let reg = TypeRegistry::new();
    let s = composite(
        8,
        vec![leaf("low", 2, 0, "Bit#(3)"), leaf("mid", 4, 3, "Bit#(2)"), leaf("top", 7, 5, "Bit#(3)")],
    );
    let tree = translate_recursive(&reg, &s, 8, &chars("11101000"));
    assert_eq!(
        tree,
        record(vec![
            field("low", bits(3, "000")),
            field("mid", bits(2, "01")),
            field("top", bits(3, "111")),
        ])
    );
}

#[test]
fn a_segment_without_a_name_is_listed_as_unnamed() {
    let reg = TypeRegistry::new();
    let s = composite(
        1,
        vec![TypeSegment {
            name: None,
            msb: 0,
            lsb: 0,
            ty_name: "Bool".to_string(),
            nested_structure: None,
        }],
    );
    let tree = translate_recursive(&reg, &s, 1, &chars("1"));
    assert_eq!(tree, record(vec![field("unnamed", bits(1, "1"))]));
    assert_eq!(
        get_struct_fields_info(&reg, &s),
        VariableInfo::Compound { subfields: vec![("unnamed".to_string(), VariableInfo::Bits)] }
    );
}

fn colours() -> Vec<RawEnumMember> {
    vec![
        RawEnumMember { tag: 0, name: "Red".to_string() },
        RawEnumMember { tag: 1, name: "Green".to_string() },
        RawEnumMember { tag: 2, name: "Blue".to_string() },
    ]
}

fn raw(name: &str, ty: &str, max: isize, min: isize) -> RawSegment {
    RawSegment {
        var_name: Some(name.to_string()),
        ty_name: ty.to_string(),
        min,
        max,
        width: (max - min + 1) as usize,
    }
}

fn registry_with_pixel() -> TypeRegistry {
    let mut reg = TypeRegistry::new();
    reg.register_enum("Colour", &colours());
    reg.register_primitive("Bit#(4)");
    assert!(reg.register_struct(
        "Pixel",
        &[raw("colour", "Colour", 5, 4), raw("level", "Bit#(4)", 3, 0)],
    ));
    assert!(reg.register_struct(
        "Pair",
        &[raw("left", "Pixel", 11, 6), raw("right", "Pixel", 5, 0)],
    ));
    reg
}

#[test]
fn named_types_are_followed_through_the_registry() {
    let reg = registry_with_pixel();
    let pair = reg.structure_of("Pair").unwrap();
    let tree = translate_recursive(&reg, pair, 12, &chars("011010100001"));
    let expected = record(vec![
        field(
            "left",
            record(vec![field("colour", text("Green")), field("level", bits(4, "1010"))]),
        ),
        field(
            "right",
            record(vec![field("colour", text("Blue")), field("level", bits(4, "0001"))]),
        ),
    ]);
    assert_eq!(tree, expected);
}

#[test]
fn shape_and_decode_list_the_same_fields() {
    let reg = registry_with_pixel();
    let pair = reg.structure_of("Pair").unwrap();
    let pixel_shape = VariableInfo::Compound {
        subfields: vec![
            ("colour".to_string(), VariableInfo::String),
            ("level".to_string(), VariableInfo::Bits),
        ],
    };
    let pixel_again = VariableInfo::Compound {
        subfields: vec![
            ("colour".to_string(), VariableInfo::String),
            ("level".to_string(), VariableInfo::Bits),
        ],
    };
    let expected = VariableInfo::Compound {
        subfields: vec![("left".to_string(), pixel_shape), ("right".to_string(), pixel_again)],
    };
    let shape = get_struct_fields_info(&reg, pair);
    assert_eq!(shape, expected);
    assert_eq!(shape_of(&reg, "Pair"), expected);
    for digits in ["011010100001", "0110", "", "1"] {
        let tree = translate_recursive(&reg, pair, digits.len(), &chars(digits));
        assert!(same_fields(&tree, &shape), "digits {:?}", digits);
    }
}

fn same_fields(tree: &TranslationResult, shape: &VariableInfo) -> bool {
    match shape {
        VariableInfo::Compound { subfields } => {
            tree.val == ValueRepr::Struct
                && tree.subfields.len() == subfields.len()
                && tree
                    .subfields
                    .iter()
                    .zip(subfields.iter())
                    .all(|(f, s)| f.name == s.0 && same_fields(&f.result, &s.1))
        }
        _ => tree.val != ValueRepr::Struct && tree.subfields.is_empty(),
    }
}

#[test]
fn shape_of_goes_by_the_category() {
    let reg = registry_with_pixel();
    assert_eq!(shape_of(&reg, "Colour"), VariableInfo::String);
    assert_eq!(shape_of(&reg, "Bit#(4)"), VariableInfo::Bits);
    assert_eq!(shape_of(&reg, "NoSuchType"), VariableInfo::Bits);
}

#[test]
fn the_blank_tree_mirrors_the_shape() {
    let shape = VariableInfo::Compound {
        subfields: vec![
            ("a".to_string(), VariableInfo::Bits),
            (
                "b".to_string(),
                VariableInfo::Compound { subfields: vec![("c".to_string(), VariableInfo::String)] },
            ),
        ],
    };
    let expected = TranslationResult {
        val: ValueRepr::Struct,
        subfields: vec![
            field("a", missing()),
            field(
                "b",
                TranslationResult {
                    val: ValueRepr::Struct,
                    subfields: vec![field("c", missing())],
                    kind: ValueKind::Undef,
                },
            ),
        ],
        kind: ValueKind::Undef,
    };
    assert_eq!(blank_of(&shape), expected);
    assert_eq!(blank_of(&VariableInfo::Bool), missing());
}

#[test]
fn a_type_that_names_itself_is_cut_off_as_raw_bits() {
    let mut reg = TypeRegistry::new();
    assert!(reg.register_struct("Loop", &[raw("again", "Loop", 3, 0)]));
    let s = reg.structure_of("Loop").unwrap();
    let tree = translate_recursive(&reg, s, 4, &chars("1001"));
    assert_eq!(
        tree,
        record(vec![field("again", record(vec![field("again", bits(4, "1001"))]))])
    );
    let shape = get_struct_fields_info(&reg, s);
    assert!(same_fields(&tree, &shape));
}

#[test]
fn translate_enum_looks_the_table_up_by_name() {
    let reg = registry_with_pixel();
    assert_eq!(translate_enum(&reg, "Colour", 2, "10"), text("Blue"));
    assert_eq!(translate_enum(&reg, "Colour", 2, "11"), text("Unknown(3)"));
    assert_eq!(translate_enum(&reg, "Pixel", 2, "01"), text("Unknown(1)"));
    assert_eq!(translate_enum(&reg, "Nothing", 2, "01"), text("Unknown(1)"));
}

#[test]
fn by_category_dispatches_on_the_category_given() {
    let reg = registry_with_pixel();
    let seg = leaf("c", 1, 0, "Colour");
    assert_eq!(
        translate_data_by_category(&reg, &seg, &TypeCategory::Enum, &chars("01"), 2),
        text("Green")
    );
    assert_eq!(
        translate_data_by_category(&reg, &seg, &TypeCategory::Bits, &chars("01"), 2),
        bits(2, "01")
    );
    assert_eq!(
        translate_data_by_category(&reg, &seg, &TypeCategory::Bool, &chars("1"), 1),
        bits(1, "1")
    );
    assert_eq!(
        translate_data_by_category(&reg, &seg, &TypeCategory::Union, &chars("01"), 2),
        bits(2, "01")
    );
    assert_eq!(
        translate_data_by_category(&reg, &seg, &TypeCategory::Interface, &chars("01"), 2),
        bits(2, "01")
    );
}

#[test]
fn an_enum_member_with_an_empty_name_is_an_error_leaf() {
    let mut reg = TypeRegistry::new();
    reg.register_enum("Odd", &[RawEnumMember { tag: 1, name: String::new() }]);
    let seg = leaf("o", 0, 0, "Odd");
    let got = translate_data_by_category(&reg, &seg, &TypeCategory::Enum, &chars("1"), 1);
    let expected = TranslationResult {
        val: ValueRepr::String("Error".to_string()),
        subfields: vec![],
        kind: ValueKind::Error,
    };
    assert_eq!(got, expected);
    assert_eq!(translate_enum(&reg, "Odd", 1, "1"), text(""));
}

#[test]
fn a_composite_without_a_layout_degrades_to_raw_bits() {
    let reg = registry_with_pixel();
    let known = leaf("p", 5, 0, "Pixel");
    let unknown = leaf("q", 5, 0, "Ghost");
    assert_eq!(
        translate_compound(&reg, &known, &chars("100011"), 6),
        record(vec![field("colour", text("Blue")), field("level", bits(4, "0011"))])
    );
    assert_eq!(translate_compound(&reg, &unknown, &chars("100011"), 6), bits(6, "100011"));
}

#[test]
fn extract_bit_chunk_takes_a_run_or_nothing() {
    let digits = chars("110010");
    let (chunk, end) = extract_bit_chunk(&digits, 3, 1).unwrap();
    assert_eq!(chunk, &chars("100")[..]);
    assert_eq!(end, 4);
    let (chunk, end) = extract_bit_chunk(&digits, 0, 6).unwrap();
    assert!(chunk.is_empty());
    assert_eq!(end, 6);
    let (chunk, end) = extract_bit_chunk(&digits, 6, 0).unwrap();
    assert_eq!(chunk, &digits[..]);
    assert_eq!(end, 6);
    assert!(extract_bit_chunk(&digits, 3, 4).is_none());
    assert!(extract_bit_chunk(&digits, 1, 7).is_none());
    assert!(extract_bit_chunk(&digits, usize::MAX, 2).is_none());
    assert!(extract_bit_chunk(&digits, 2, usize::MAX).is_none());
}

#[test]
fn window_of_places_a_field_from_the_most_significant_end() {
    let digits = chars("10110");
    assert_eq!(window_of(&digits, 5, 4, 4), Some(&chars("1")[..]));
    assert_eq!(window_of(&digits, 5, 3, 1), Some(&chars("011")[..]));
    assert_eq!(window_of(&digits, 5, 0, 0), Some(&chars("0")[..]));
    assert_eq!(window_of(&digits, 5, 4, 0), Some(&digits[..]));
    assert_eq!(window_of(&digits, 8, 7, 3), Some(&digits[..]));
    assert_eq!(window_of(&digits, 8, 7, 2), None);
    assert_eq!(window_of(&digits, 5, 5, 0), None);
    assert_eq!(window_of(&digits, 5, 1, 2), None);
    assert_eq!(window_of(&digits, 0, 0, 0), None);
}

#[test]
fn a_strict_decode_gives_up_the_fields_after_a_missing_one() {
    let mut reg = TypeRegistry::new();
    let s = composite(
        6,
        vec![
            leaf("top", 5, 4, "Bit#(2)"),
            leaf("low", 1, 0, "Bit#(2)"),
            leaf("mid", 3, 2, "Bit#(2)"),
        ],
    );
    let lenient = translate_recursive(&reg, &s, 4, &chars("1101"));
    assert_eq!(
        lenient,
        record(vec![
            field("top", bits(2, "11")),
            field("low", missing()),
            field("mid", bits(2, "01")),
        ])
    );
    reg.set_strict(true);
    let strict = translate_recursive(&reg, &s, 4, &chars("1101"));
    assert_eq!(
        strict,
        record(vec![
            field("top", bits(2, "11")),
            field("low", missing()),
            field("mid", missing()),
        ])
    );
    let whole = translate_recursive(&reg, &s, 6, &chars("110110"));
    assert_eq!(
        whole,
        record(vec![
            field("top", bits(2, "11")),
            field("low", bits(2, "10")),
            field("mid", bits(2, "01")),
        ])
    );
    reg.set_strict(false);
    assert_eq!(translate_recursive(&reg, &s, 4, &chars("1101")), lenient);
}

#[test]
fn a_strict_decode_keeps_the_shape_of_what_it_gives_up() {
    let mut reg = registry_with_pixel();
    reg.set_strict(true);
    let pair = reg.structure_of("Pair").unwrap();
    let shape = get_struct_fields_info(&reg, pair);
    for digits in ["011010100001", "01101010000", "011010", "01101", ""] {
        let tree = translate_recursive(&reg, pair, digits.len(), &chars(digits));
        assert!(same_fields(&tree, &shape), "digits {:?}", digits);
    }
    let tree = translate_recursive(&reg, pair, 6, &chars("011010"));
    let blank_pixel = TranslationResult {
        val: ValueRepr::Struct,
        subfields: vec![field("colour", missing()), field("level", missing())],
        kind: ValueKind::Undef,
    };
    let expected = record(vec![
        field(
            "left",
            record(vec![field("colour", text("Green")), field("level", bits(4, "1010"))]),
        ),
        field("right", blank_pixel),
    ]);
    assert_eq!(tree, expected);
}
