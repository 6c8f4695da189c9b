use bluespec_decode::enums::{bits_of, build_enum, RawEnumMember};
use bluespec_decode::ingest::{
    initialize_static_data, process_module_blocks, process_typedef, ModuleContent, Typedef,
    TypedefBody,
};
use bluespec_decode::layout::{bounds_of, process_nested_segments, RawSegment};
use bluespec_decode::names::{NameEntry, NameMap};
use bluespec_decode::registry::TypeRegistry;
use bluespec_decode::schema::{
    AliasEntry, RawBlockDefinition, RawBlockPort, TypeCategory, TypeSegment, TypeStructure,
};

fn raw(name: &str, ty: &str, max: isize, min: isize) -> RawSegment {
    RawSegment {
        var_name: Some(name.to_string()),
        ty_name: ty.to_string(),
        min,
        max,
        width: 0,
    }
}

fn names(segments: &[TypeSegment]) -> Vec<Option<String>> {
    segments.iter().map(|s| s.name.clone()).collect()
}

fn max_msb(segments: &[TypeSegment]) -> usize {
    segments.iter().map(|s| s.msb).max().unwrap()
}

fn widths_cover_fields(s: &TypeStructure) -> bool {
    s.total_width == max_msb(&s.segments) + 1
        && s.segments.iter().all(|seg| match &seg.nested_structure {
            Some(inner) => widths_cover_fields(inner),
            None => true,
        })
}

#[test]
fn flat_segments_pass_through_unchanged() {
    let out = process_nested_segments(&[raw("a", "Bit#(4)", 7, 4), raw("b", "Bool", 3, 3)]);
    assert_eq!(out.len(), 2);
    assert_eq!(out[0].name.as_deref(), Some("a"));
    assert_eq!((out[0].msb, out[0].lsb), (7, 4));
    assert_eq!(out[0].ty_name, "Bit#(4)");
    assert!(out[0].nested_structure.is_none());
    assert_eq!(out[1].name.as_deref(), Some("b"));
    assert_eq!((out[1].msb, out[1].lsb), (3, 3));
    assert_eq!(out[1].ty_name, "Bool");
}

#[test]
fn dotted_names_become_a_field_that_owns_its_fields() {
    let out = process_nested_segments(&[
        raw("d", "Bit#(2)", 9, 8),
        raw("a.b", "Bit#(4)", 7, 4),
        raw("a.c", "Bit#(2)", 3, 2),
        raw("e", "Bit#(2)", 1, 0),
    ]);
    assert_eq!(
        names(&out),
        vec![Some("d".to_string()), Some("a".to_string()), Some("e".to_string())]
    );
    let a = &out[1];
    assert_eq!((a.msb, a.lsb), (7, 2));
    assert_eq!(a.ty_name, "Compound");
    let inner = a.nested_structure.as_ref().unwrap();
    assert_eq!(inner.total_width, 8);
    assert!(inner.enum_definition.is_none());
    assert_eq!(names(&inner.segments), vec![Some("b".to_string()), Some("c".to_string())]);
    assert_eq!((inner.segments[0].msb, inner.segments[0].lsb), (7, 4));
    assert_eq!((inner.segments[1].msb, inner.segments[1].lsb), (3, 2));
    assert_eq!(inner.segments[1].ty_name, "Bit#(2)");
}

#[test]
fn groups_keep_the_order_in_which_they_first_occur() {
    let out = process_nested_segments(&[
        raw("x.p", "T", 9, 8),
        raw("y", "T", 7, 6),
        raw("x.q", "T", 5, 4),
        raw("z.r.s", "T", 3, 2),
        raw("y", "T", 1, 0),
    ]);
    assert_eq!(
        names(&out),
        vec![
            Some("x".to_string()),
            Some("y".to_string()),
            Some("y".to_string()),
            Some("z".to_string()),
        ]
    );
    assert_eq!((out[0].msb, out[0].lsb), (9, 4));
    assert_eq!((out[1].msb, out[1].lsb), (7, 6));
    assert_eq!((out[2].msb, out[2].lsb), (1, 0));
    let z = out[3].nested_structure.as_ref().unwrap();
    assert_eq!(names(&z.segments), vec![Some("r".to_string())]);
    let r = z.segments[0].nested_structure.as_ref().unwrap();
    assert_eq!(names(&r.segments), vec![Some("s".to_string())]);
    assert_eq!((r.segments[0].msb, r.segments[0].lsb), (3, 2));
    assert_eq!(r.total_width, 4);
    assert_eq!(z.total_width, 4);
}

#[test]
fn a_group_member_without_a_dot_keeps_its_name_inside_the_group() {
    let out = process_nested_segments(&[raw("a.b", "T", 3, 2), raw("a", "U", 1, 0)]);
    assert_eq!(names(&out), vec![Some("a".to_string())]);
    let inner = out[0].nested_structure.as_ref().unwrap();
    assert_eq!(names(&inner.segments), vec![Some("b".to_string()), Some("a".to_string())]);
    assert_eq!((out[0].msb, out[0].lsb), (3, 0));
}

#[test]
fn a_segment_without_a_name_is_grouped_under_the_empty_name() {
    let nameless = RawSegment {
        var_name: None,
        ty_name: "T".to_string(),
        min: 0,
        max: 1,
        width: 2,
    };
    let out = process_nested_segments(&[nameless, raw(".x", "T", 3, 2)]);
    assert_eq!(names(&out), vec![Some(String::new())]);
    let inner = out[0].nested_structure.as_ref().unwrap();
    assert_eq!(names(&inner.segments), vec![None, Some("x".to_string())]);
}

#[test]
fn bit_bounds_count_by_their_magnitude() {
    let out = process_nested_segments(&[raw("n", "T", -7, -4)]);
    assert_eq!((out[0].msb, out[0].lsb), (7, 4));
    let out = process_nested_segments(&[raw("m", "T", isize::MIN, isize::MAX)]);
    assert_eq!(out[0].msb, (isize::MAX as usize) + 1);
    assert_eq!(out[0].lsb, isize::MAX as usize);
}

#[test]
fn no_segments_give_no_fields() {
    assert!(process_nested_segments(&[]).is_empty());
    assert_eq!(bounds_of(&vec![]), (0, 0));
}

#[test]
fn every_built_composite_is_one_bit_wider_than_its_highest_field() {
    let mut reg = TypeRegistry::new();
    assert!(reg.register_struct(
        "Deep",
        &[
            raw("h.i.j", "T", 40, 33),
            raw("h.i.k", "T", 32, 30),
            raw("h.l", "T", 29, 20),
            raw("m", "T", 19, 0),
        ],
    ));
    let s = reg.structure_of("Deep").unwrap();
    assert_eq!(s.total_width, 41);
    assert!(widths_cover_fields(s));
    let h = s.segments[0].nested_structure.as_ref().unwrap();
    assert_eq!(h.total_width, 41);
    let i = h.segments[0].nested_structure.as_ref().unwrap();
    assert_eq!(i.total_width, 41);
    assert_eq!((h.segments[0].msb, h.segments[0].lsb), (40, 30));
    assert_eq!(bounds_of(&s.segments), (40, 0));
}

#[test]
fn register_struct_refuses_an_empty_list() {
    let mut reg = TypeRegistry::new();
    assert!(!reg.register_struct("Empty", &[]));
    assert!(reg.structure_of("Empty").is_none());
    assert_eq!(reg.category_of("Empty"), TypeCategory::Bits);
    assert_eq!(reg.depth(), 0);
}

#[test]
fn category_of_defaults_to_bits() {
    let mut reg = TypeRegistry::new();
    assert_eq!(reg.category_of("Anything"), TypeCategory::Bits);
    reg.register_primitive("Bit#(8)");
    assert_eq!(reg.category_of("Bit#(8)"), TypeCategory::Bits);
    assert!(reg.structure_of("Bit#(8)").is_none());
    assert!(reg.register_struct("S", &[raw("f", "Bit#(8)", 7, 0)]));
    assert_eq!(reg.category_of("S"), TypeCategory::Struct);
    reg.register_enum("E", &[RawEnumMember { tag: 3, name: "Three".to_string() }]);
    assert_eq!(reg.category_of("E"), TypeCategory::Enum);
    assert_eq!(reg.depth(), 2);
}

#[test]
fn registering_a_name_again_replaces_the_layout() {
    let mut reg = TypeRegistry::new();
    assert!(reg.register_struct("S", &[raw("f", "T", 7, 0)]));
    assert!(reg.register_struct("S", &[raw("g", "T", 3, 0)]));
    assert_eq!(reg.depth(), 1);
    let s = reg.structure_of("S").unwrap();
    assert_eq!(s.total_width, 4);
    assert_eq!(s.segments[0].name.as_deref(), Some("g"));
    reg.register_primitive("S");
    assert_eq!(reg.category_of("S"), TypeCategory::Bits);
    assert!(reg.structure_of("S").is_some());
}

#[test]
fn enum_width_is_the_bit_length_of_the_greatest_tag() {
    let widths = [
        (0u64, 1usize),
        (1, 1),
        (2, 2),
        (3, 2),
        (4, 3),
        (7, 3),
        (8, 4),
        (255, 8),
        (256, 9),
        (u64::MAX, 64),
    ];
    for (greatest, width) in widths {
        let built = build_enum("E", &[RawEnumMember { tag: greatest, name: "m".to_string() }]);
        assert_eq!(built.total_width, width, "greatest tag {}", greatest);
        assert_eq!(built.segments.len(), 1);
        assert_eq!(built.segments[0].msb, width - 1);
        assert_eq!(built.segments[0].lsb, 0);
        assert_eq!(built.segments[0].ty_name, "E");
        assert!(built.segments[0].name.is_none());
    }
    assert_eq!(bits_of(0), 0);
    assert_eq!(bits_of(1), 1);
    assert_eq!(bits_of(1 << 40), 41);
}

#[test]
fn enum_tags_need_not_be_contiguous_and_later_members_win() {
    let built = build_enum(
        "Sparse",
        &[
            RawEnumMember { tag: 9, name: "Nine".to_string() },
            RawEnumMember { tag: 2, name: "Two".to_string() },
            RawEnumMember { tag: 9, name: "Neuf".to_string() },
        ],
    );
    assert_eq!(built.total_width, 4);
    let table = &built.enum_definition.as_ref().unwrap().members;
    assert_eq!(table.len(), 2);
    assert_eq!(table[&9], "Neuf");
    assert_eq!(table[&2], "Two");
    let empty = build_enum("None", &[]);
    assert_eq!(empty.total_width, 1);
    assert!(empty.enum_definition.as_ref().unwrap().members.is_empty());
}

#[test]
fn process_typedef_degrades_what_it_cannot_place() {
    let mut reg = TypeRegistry::new();
    let segments = TypedefBody::Segments(vec![raw("f", "T", 3, 0)]);
    process_typedef("Bit#(4)", &segments, &mut reg);
    process_typedef("Bool", &segments, &mut reg);
    process_typedef("Clock", &segments, &mut reg);
    process_typedef("Reset", &segments, &mut reg);
    for name in ["Bit#(4)", "Bool", "Clock", "Reset"] {
        assert_eq!(reg.category_of(name), TypeCategory::Bits);
        assert!(reg.structure_of(name).is_none());
    }
    process_typedef("Bit#4", &segments, &mut reg);
    assert_eq!(reg.category_of("Bit#4"), TypeCategory::Struct);
    process_typedef("S", &segments, &mut reg);
    assert_eq!(reg.category_of("S"), TypeCategory::Struct);
    assert_eq!(reg.structure_of("S").unwrap().total_width, 4);
    let members = TypedefBody::Members(vec![RawEnumMember { tag: 5, name: "Five".to_string() }]);
    process_typedef("E", &members, &mut reg);
    assert_eq!(reg.category_of("E"), TypeCategory::Enum);
    assert_eq!(reg.structure_of("E").unwrap().total_width, 3);
    process_typedef("NoSegments", &TypedefBody::Segments(vec![]), &mut reg);
    process_typedef("NoMembers", &TypedefBody::Members(vec![]), &mut reg);
    process_typedef("Opaque", &TypedefBody::Other, &mut reg);
    for name in ["NoSegments", "NoMembers", "Opaque"] {
        assert_eq!(reg.category_of(name), TypeCategory::Bits);
        assert!(reg.structure_of(name).is_none());
    }
}

fn port(name: &str, ty: &str) -> RawBlockPort {
    RawBlockPort { name: name.to_string(), ty_name: ty.to_string() }
}

fn block(instance: &str, ty: &str, ports: Vec<RawBlockPort>) -> NameEntry<RawBlockDefinition> {
    NameEntry {
        name: instance.to_string(),
        value: RawBlockDefinition { block_type_name: ty.to_string(), ports },
    }
}

#[test]
fn process_module_blocks_collects_blocks_by_instance() {
    let data = process_module_blocks(&[
        block("rb", "mkFifo", vec![port("D_OUT", "Pixel"), port("CLK", "Clock")]),
        block("cnt", "mkReg", vec![]),
        block("rb", "mkFifo2", vec![port("Q_OUT", "Bool")]),
    ]);
    assert_eq!(data.blocks.len(), 2);
    let rb = data.blocks.get("rb").unwrap();
    assert_eq!(rb.block_type_name, "mkFifo2");
    assert_eq!(rb.ports.len(), 1);
    assert_eq!(rb.ports[0].name, "Q_OUT");
    assert_eq!(rb.ports[0].ty_name, "Bool");
    assert_eq!(data.blocks.get("cnt").unwrap().block_type_name, "mkReg");
    assert!(data.blocks.get("none").is_none());
    assert!(!data.blocks.contains("RB"));
}

#[test]
fn name_map_replaces_and_keeps_apart() {
    let mut map: NameMap<u32> = NameMap::new();
    assert_eq!(map.len(), 0);
    assert!(map.get("a").is_none());
    map.insert("a".to_string(), 1);
    map.insert("b".to_string(), 2);
    map.insert("a".to_string(), 3);
    map.insert(String::new(), 4);
    assert_eq!(map.len(), 3);
    assert_eq!(map.get("a"), Some(&3));
    assert_eq!(map.get("b"), Some(&2));
    assert_eq!(map.get(""), Some(&4));
    assert!(map.get("ab").is_none());
    assert!(map.contains("b"));
    assert!(!map.contains("c"));
}

#[test]
fn initialize_static_data_builds_all_three_registries() {
    let design = vec![
        ModuleContent {
            name: "mkTop".to_string(),
            typedefs: vec![
                Typedef {
                    name: "Pixel".to_string(),
                    body: TypedefBody::Segments(vec![raw("v", "Bit#(8)", 7, 0)]),
                },
                Typedef { name: "Bit#(8)".to_string(), body: TypedefBody::Other },
            ],
            blocks: vec![block("rb", "mkFifo", vec![port("D_OUT", "Pixel")])],
        },
        ModuleContent {
            name: "mkFifo".to_string(),
            typedefs: vec![Typedef {
                name: "Pixel".to_string(),
                body: TypedefBody::Segments(vec![raw("w", "Bit#(4)", 3, 0)]),
            }],
            blocks: vec![],
        },
    ];
    let aliases = vec![AliasEntry {
        instance: "top".to_string(),
        implementation: "mkTop".to_string(),
        path: vec!["main".to_string(), "top".to_string()],
    }];
    let reg = initialize_static_data(&design, aliases);
    assert_eq!(reg.aliases.len(), 1);
    assert_eq!(reg.aliases[0].implementation, "mkTop");
    assert_eq!(reg.modules.len(), 2);
    assert!(reg.modules.get("mkTop").unwrap().blocks.contains("rb"));
    assert_eq!(reg.modules.get("mkFifo").unwrap().blocks.len(), 0);
    assert_eq!(reg.types.depth(), 1);
    let pixel = reg.types.structure_of("Pixel").unwrap();
    assert_eq!(pixel.total_width, 4);
    assert_eq!(pixel.segments[0].name.as_deref(), Some("w"));
    assert_eq!(reg.types.category_of("Bit#(8)"), TypeCategory::Bits);
    let empty = initialize_static_data(&[], vec![]);
    assert_eq!(empty.modules.len(), 0);
    assert_eq!(empty.types.depth(), 0);
    assert!(empty.aliases.is_empty());
}
