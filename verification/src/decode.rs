//! The decoder: from a layout and the digits of a value to the tree of its
//! named fields.

use crate::registry::{category_in, depth_of, TypeRegistry, TypeTable};
use crate::schema::{
    lemma_structure_view, EnumDefinition, SegmentModel, StructureModel, TypeCategory, TypeSegment,
    TypeStructure,
};
use crate::shape::{
    blank, blank_fields, blank_of, field_name, name_of_field, segment_shape_within, shape,
    shape_fields, shape_segment,
};
use crate::text::{binary_reading, chars_of, decimal, parse_binary, push_decimal, string_of};
use crate::tree::{
    bits_leaf, bits_tree, field_models, lemma_field_models_push, FieldTree, ReprModel, ShapeTree,
    SubFieldTranslationResult, TranslationResult, ValueKind, ValueRepr,
};
use vstd::prelude::*;

verus! {

/// The digits of the field with the bounds `msb` and `lsb` in a value of a
/// type `total_width` bits wide. The digits of the value come most
/// significant first, so the field stands at the positions
/// `total_width - 1 - msb` to `total_width - 1 - lsb`. There is no window
/// where the bounds are out of order or beyond the width, or where the
/// digits end before the field does.
pub open spec fn window(total_width: nat, msb: nat, lsb: nat, digits: Seq<char>) -> Option<
    Seq<char>,
> {
    if lsb <= msb && msb < total_width && total_width - lsb <= digits.len() {
        Some(digits.subrange(total_width - 1 - msb, total_width - lsb))
    } else {
        None
    }
}

/// The tag that `digits` write: their value as an unsigned binary number,
/// and 0 where they cannot be read as one.
pub open spec fn tag_of(digits: Seq<char>) -> u64 {
    match binary_reading(digits) {
        Some(tag) => tag,
        None => 0,
    }
}

/// The name made up for a tag that the table does not hold.
pub open spec fn unknown_label(tag: u64) -> Seq<char> {
    ("Unknown("@ + decimal(tag as nat)).push(')')
}

/// The name of the tag that `digits` write.
pub open spec fn enum_label(table: Map<u64, Seq<char>>, digits: Seq<char>) -> Seq<char> {
    let tag = tag_of(digits);
    if table.contains_key(tag) {
        table[tag]
    } else {
        unknown_label(tag)
    }
}

/// A leaf that holds a symbolic name.
pub open spec fn text_tree(label: Seq<char>) -> FieldTree {
    FieldTree { val: ReprModel::Text(label), subfields: Seq::empty(), kind: ValueKind::Normal }
}

/// The leaf for an enumerated field whose name came out empty.
pub open spec fn error_tree() -> FieldTree {
    FieldTree { val: ReprModel::Text("Error"@), subfields: Seq::empty(), kind: ValueKind::Error }
}

/// The tag table registered under `name`; empty where no enumerated type is
/// registered under it.
pub open spec fn members_in(t: TypeTable, name: Seq<char>) -> Map<u64, Seq<char>> {
    if t.structures.contains_key(name) {
        match t.structures[name].members {
            Some(table) => table,
            None => Map::empty(),
        }
    } else {
        Map::empty()
    }
}

/// The tree of a value of the layout `s` written by `digits`. An enumerated
/// type gives the name of its tag; a composite gives its fields in
/// declaration order. Named references are followed `fuel` deep.
pub open spec fn decode(t: TypeTable, s: StructureModel, digits: Seq<char>, fuel: nat) -> FieldTree
    decreases fuel, s, s.segments.len() + 1,
{
    match s.members {
        Some(table) => text_tree(enum_label(table, digits)),
        None => FieldTree {
            val: ReprModel::Struct,
            subfields: decode_fields(t, s, digits, fuel, s.segments.len()),
            kind: ValueKind::Normal,
        },
    }
}

/// Whether one of the first `n` fields of `s` has no window in `digits`.
pub open spec fn lost_before(s: StructureModel, digits: Seq<char>, n: nat) -> bool
    decreases n,
{
    if n == 0 || n > s.segments.len() {
        false
    } else {
        lost_before(s, digits, (n - 1) as nat) || window(
            s.total_width,
            s.segments[n - 1].msb,
            s.segments[n - 1].lsb,
            digits,
        ) is None
    }
}

/// The digits from which the field of index `i` of `s` is decoded: its
/// window, but nothing in a strict decode once a field before it had no
/// window.
pub open spec fn reach(t: TypeTable, s: StructureModel, digits: Seq<char>, i: int) -> Option<
    Seq<char>,
> {
    if t.strict && lost_before(s, digits, i as nat) {
        None
    } else {
        window(s.total_width, s.segments[i].msb, s.segments[i].lsb, digits)
    }
}

/// The trees of the first `n` fields of `s`, with their names.
pub open spec fn decode_fields(
    t: TypeTable,
    s: StructureModel,
    digits: Seq<char>,
    fuel: nat,
    n: nat,
) -> Seq<(Seq<char>, FieldTree)>
    decreases fuel, s, n,
{
    if n == 0 || n > s.segments.len() {
        Seq::empty()
    } else {
        let seg = s.segments[n - 1];
        decode_fields(t, s, digits, fuel, (n - 1) as nat).push(
            (field_name(seg), decode_segment(t, seg, reach(t, s, digits, n - 1), fuel)),
        )
    }
}

/// The tree of one field. Without a window it is the blank tree of the
/// field's shape. With one, a field that owns its structure is decoded by
/// it, and any other by the category of its type.
pub open spec fn decode_segment(
    t: TypeTable,
    seg: SegmentModel,
    digits: Option<Seq<char>>,
    fuel: nat,
) -> FieldTree
    decreases fuel, seg, 1nat,
{
    match digits {
        None => blank(shape_segment(t, seg, fuel)),
        Some(d) => match seg.nested {
            Some(inner) => decode(t, *inner, d, fuel),
            None => by_category(t, seg, category_in(t, seg.ty_name), d, d.len() as u64, fuel),
        },
    }
}

/// The tree of a field of the category `category` written by `digits`. An
/// enumerated field gives the name of its tag, by the table registered under
/// the field's type; a composite whose layout is registered, and within
/// `fuel`, is decoded by that layout; everything else is a leaf of raw bits
/// of the width `width`.
pub open spec fn by_category(
    t: TypeTable,
    seg: SegmentModel,
    category: TypeCategory,
    digits: Seq<char>,
    width: u64,
    fuel: nat,
) -> FieldTree
    decreases fuel, seg, 0nat,
{
    match category {
        TypeCategory::Enum => {
            let label = enum_label(members_in(t, seg.ty_name), digits);
            if label.len() == 0 {
                error_tree()
            } else {
                text_tree(label)
            }
        },
        TypeCategory::Struct => if fuel > 0 && t.structures.contains_key(seg.ty_name) {
            decode(t, t.structures[seg.ty_name], digits, (fuel - 1) as nat)
        } else {
            bits_tree(width, digits)
        },
        _ => bits_tree(width, digits),
    }
}

/// The run of `segment_width` digits of `digits` that begins at `start`,
/// with the index behind it; `None` where the digits end before the run
/// does.
pub fn extract_bit_chunk(digits: &[char], segment_width: usize, start: usize) -> (r: Option<
    (&[char], usize),
>)
    ensures
        match r {
            Some((chunk, end)) => start + segment_width <= digits@.len() && chunk@
                == digits@.subrange(start as int, start + segment_width) && end == start
                + segment_width,
            None => start + segment_width > digits@.len(),
        },
{
    if start > digits.len() || segment_width > digits.len() - start {
        return None;
    }
    let end: usize = start + segment_width;
    Some((&digits[start..end], end))
}

/// The digits of the field with the bounds `msb` and `lsb`: see `window`.
pub fn window_of(digits: &[char], total_width: usize, msb: usize, lsb: usize) -> (r: Option<
    &[char],
>)
    ensures
        match r {
            Some(chunk) => window(total_width as nat, msb as nat, lsb as nat, digits@) == Some(
                chunk@,
            ),
            None => window(total_width as nat, msb as nat, lsb as nat, digits@) is None,
        },
{
    if lsb <= msb && msb < total_width {
        match extract_bit_chunk(digits, msb - lsb + 1, total_width - 1 - msb) {
            Some((chunk, _)) => Some(chunk),
            None => None,
        }
    } else {
        None
    }
}

/// The name made up for the unknown tag `tag`.
pub fn unknown_name(tag: u64) -> (name: String)
    ensures
        name@ == unknown_label(tag),
{
    let mut chars = chars_of("Unknown(");
    push_decimal(tag, &mut chars);
    chars.push(')');
    string_of(chars.as_slice())
}

/// The name of the tag that `digits` write, by the table `definition`.
pub fn label_in(definition: Option<&EnumDefinition>, digits: &[char]) -> (label: String)
    ensures
        label@ == enum_label(
            match definition {
                Some(d) => d@,
                None => Map::empty(),
            },
            digits@,
        ),
{
    let tag: u64 = match parse_binary(digits) {
        Some(v) => v,
        None => 0,
    };
    match definition {
        Some(d) => match d.members.get(&tag) {
            Some(name) => name.clone(),
            None => unknown_name(tag),
        },
        None => unknown_name(tag),
    }
}

/// A leaf that holds the symbolic name `label`.
pub fn text_leaf(label: String) -> (r: TranslationResult)
    ensures
        r@ == text_tree(label@),
{
    TranslationResult { val: ValueRepr::String(label), subfields: Vec::new(), kind: ValueKind::Normal }
}

/// The tag table registered under `name`, if an enumerated type is.
fn definition_of<'a>(reg: &'a TypeRegistry, name: &str) -> (found: Option<&'a EnumDefinition>)
    ensures
        members_in(reg@, name@) == match found {
            Some(d) => d@,
            None => Map::<u64, Seq<char>>::empty(),
        },
{
    match reg.structure_of(name) {
        Some(s) => match &s.enum_definition {
            Some(d) => Some(d),
            None => None,
        },
        None => None,
    }
}

/// The name of the tag that `digits` write, by the enumerated type
/// registered under `name`. A tag that the type does not hold, and any tag
/// where no such type is registered, gets a made-up name.
pub fn translate_enum(reg: &TypeRegistry, name: &str, width: usize, digits: &str) -> (r:
    TranslationResult)
    ensures
        r@ == text_tree(enum_label(members_in(reg@, name@), digits@)),
{
    let chars = chars_of(digits);
    text_leaf(label_in(definition_of(reg, name), chars.as_slice()))
}

/// The tree of a value of the layout `structure` written by `digits`, named
/// references followed `fuel` deep.
pub fn decode_within(reg: &TypeRegistry, structure: &TypeStructure, digits: &[char], fuel: usize) -> (r:
    TranslationResult)
    ensures
        r@ == decode(reg@, structure@, digits@, fuel as nat),
    decreases fuel, structure,
{
    if let Some(definition) = &structure.enum_definition {
        return text_leaf(label_in(Some(definition), digits));
    }
    let ghost t = reg@;
    let ghost s = structure@;
    proof {
        lemma_structure_view(structure);
    }
    let mut subfields: Vec<SubFieldTranslationResult> = Vec::new();
    let mut lost = false;
    let mut i: usize = 0;
    while i < structure.segments.len()
        invariant
            i <= structure.segments@.len(),
            t == reg@,
            s == structure@,
            s.segments.len() == structure.segments@.len(),
            forall|k: int|
                0 <= k < structure.segments@.len() ==> s.segments[k] == (
                #[trigger] structure.segments@[k])@,
            lost == lost_before(s, digits@, i as nat),
            field_models(subfields@) == decode_fields(t, s, digits@, fuel as nat, i as nat),
        decreases structure.segments@.len() - i,
    {
        let seg = &structure.segments[i];
        let name = name_of_field(seg);
        assert(s.segments[i as int] == seg@);
        let own = window_of(digits, structure.total_width, seg.msb, seg.lsb);
        let usable = if reg.strict && lost {
            None
        } else {
            own
        };
        lost = lost || own.is_none();
        let result = match usable {
            None => {
                let info = segment_shape_within(reg, seg, fuel);
                blank_of(&info)
            },
            Some(chunk) => match &seg.nested_structure {
                Some(inner) => decode_within(reg, inner, chunk, fuel),
                None => category_within(
                    reg,
                    seg,
                    reg.category_of(seg.ty_name.as_str()),
                    chunk,
                    chunk.len() as u64,
                    fuel,
                ),
            },
        };
        let field = SubFieldTranslationResult { name, result };
        proof {
            assert(result@ == decode_segment(t, seg@, reach(t, s, digits@, i as int), fuel as nat));
            lemma_field_models_push(subfields@, field);
        }
        subfields.push(field);
        i += 1;
    }
    TranslationResult { val: ValueRepr::Struct, subfields, kind: ValueKind::Normal }
}

/// The tree of the field `seg`, of the category `category`, written by
/// `chunk`, named references followed `fuel` deep.
pub fn category_within(
    reg: &TypeRegistry,
    seg: &TypeSegment,
    category: TypeCategory,
    chunk: &[char],
    width: u64,
    fuel: usize,
) -> (r: TranslationResult)
    ensures
        r@ == by_category(reg@, seg@, category, chunk@, width, fuel as nat),
    decreases fuel, seg,
{
    match category {
        TypeCategory::Enum => {
            let label = label_in(definition_of(reg, seg.ty_name.as_str()), chunk);
            if label.as_str().is_empty() {
                TranslationResult {
                    val: ValueRepr::String("Error".to_owned()),
                    subfields: Vec::new(),
                    kind: ValueKind::Error,
                }
            } else {
                text_leaf(label)
            }
        },
        TypeCategory::Struct => {
            if fuel > 0 {
                match reg.structure_of(seg.ty_name.as_str()) {
                    Some(layout) => decode_within(reg, layout, chunk, fuel - 1),
                    None => bits_leaf(width, string_of(chunk)),
                }
            } else {
                bits_leaf(width, string_of(chunk))
            }
        },
        _ => bits_leaf(width, string_of(chunk)),
    }
}

/// Decodes a value of the layout `structure` from its digits, most
/// significant first: see `decode`. `total_width` is the declared width of
/// the value; the positions of the fields go by the width of the layout, and
/// a field whose digits are missing comes out blank, as do in a strict
/// decode the fields that follow it.
pub fn translate_recursive(
    reg: &TypeRegistry,
    structure: &TypeStructure,
    total_width: usize,
    digits: &[char],
) -> (r: TranslationResult)
    ensures
        r@ == decode(reg@, structure@, digits@, depth_of(reg@)),
        same_layout(r@, shape(reg@, structure@, depth_of(reg@))),
{
    proof {
        lemma_decode_matches_shape(reg@, structure@, digits@, depth_of(reg@));
    }
    decode_within(reg, structure, digits, reg.depth())
}

/// Decodes the field `segment`, of the category `type_category`, from its
/// digits: see `by_category`.
pub fn translate_data_by_category(
    reg: &TypeRegistry,
    segment: &TypeSegment,
    type_category: &TypeCategory,
    chunk_slice: &[char],
    segment_width: usize,
) -> (r: TranslationResult)
    ensures
        r@ == by_category(
            reg@,
            segment@,
            *type_category,
            chunk_slice@,
            segment_width as u64,
            depth_of(reg@),
        ),
{
    category_within(reg, segment, *type_category, chunk_slice, segment_width as u64, reg.depth())
}

/// Decodes the composite field `segment` from its digits by the layout
/// registered under its type; raw bits where none is registered.
pub fn translate_compound(
    reg: &TypeRegistry,
    segment: &TypeSegment,
    chunk_slice: &[char],
    segment_width: usize,
) -> (r: TranslationResult)
    ensures
        r@ == by_category(
            reg@,
            segment@,
            TypeCategory::Struct,
            chunk_slice@,
            segment_width as u64,
            depth_of(reg@),
        ),
{
    category_within(
        reg,
        segment,
        TypeCategory::Struct,
        chunk_slice,
        segment_width as u64,
        reg.depth(),
    )
}

/// The fields of a decoded composite, one by one: the tree of a composite
/// lists one field for each segment, in declaration order, under the
/// segment's name, decoded from the digits that reach it.
pub proof fn lemma_decode_fields(t: TypeTable, s: StructureModel, digits: Seq<char>, fuel: nat, n: nat)
    requires
        n <= s.segments.len(),
    ensures
        decode_fields(t, s, digits, fuel, n).len() == n,
        forall|i: int|
            0 <= i < n ==> (#[trigger] decode_fields(t, s, digits, fuel, n)[i]) == (
                field_name(s.segments[i]),
                decode_segment(t, s.segments[i], reach(t, s, digits, i), fuel),
            ),
    decreases n,
{
    if n > 0 {
        lemma_decode_fields(t, s, digits, fuel, (n - 1) as nat);
    }
}

/// The fields of the shape of a composite, one by one.
pub proof fn lemma_shape_fields(t: TypeTable, s: StructureModel, fuel: nat, n: nat)
    requires
        n <= s.segments.len(),
    ensures
        shape_fields(t, s, fuel, n).len() == n,
        forall|i: int|
            0 <= i < n ==> (#[trigger] shape_fields(t, s, fuel, n)[i]) == (
                field_name(s.segments[i]),
                shape_segment(t, s.segments[i], fuel),
            ),
    decreases n,
{
    if n > 0 {
        lemma_shape_fields(t, s, fuel, (n - 1) as nat);
    }
}

/// The fields of a blank tree, one by one.
pub proof fn lemma_blank_fields(fields: Seq<(Seq<char>, ShapeTree)>, n: nat)
    requires
        n <= fields.len(),
    ensures
        blank_fields(fields, n).len() == n,
        forall|i: int|
            0 <= i < n ==> (#[trigger] blank_fields(fields, n)[i]) == (
                fields[i].0,
                blank(fields[i].1),
            ),
    decreases n,
{
    if n > 0 {
        lemma_blank_fields(fields, (n - 1) as nat);
    }
}

/// Whether `tree` lists exactly the fields of `shape`: the same names in the
/// same order, nested alike, and a composite wherever the shape has one.
pub open spec fn same_layout(tree: FieldTree, shape: ShapeTree) -> bool
    decreases shape,
{
    match shape {
        ShapeTree::Compound(fields) => {
            &&& tree.val is Struct
            &&& tree.subfields.len() == fields.len()
            &&& forall|i: int|
                0 <= i < fields.len() ==> tree.subfields[i].0 == (#[trigger] fields[i]).0
                    && same_layout(tree.subfields[i].1, fields[i].1)
        },
        _ => !(tree.val is Struct) && tree.subfields.len() == 0,
    }
}

/// A blank tree lists exactly the fields of its shape.
pub proof fn lemma_blank_layout(shape: ShapeTree)
    ensures
        same_layout(blank(shape), shape),
    decreases shape,
{
    match shape {
        ShapeTree::Compound(fields) => {
            lemma_blank_fields(fields, fields.len());
            assert forall|i: int| 0 <= i < fields.len() implies blank(shape).subfields[i].0 == (
            #[trigger] fields[i]).0 && same_layout(blank(shape).subfields[i].1, fields[i].1) by {
                lemma_blank_layout(fields[i].1);
            }
        },
        _ => {},
    }
}

/// The decoder and the shape projector agree: whatever the digits, and
/// however many of them there are, the tree decoded by a layout lists
/// exactly the fields of the layout's shape, by name, in order and with the
/// same nesting.
pub proof fn lemma_decode_matches_shape(t: TypeTable, s: StructureModel, digits: Seq<char>, fuel: nat)
    ensures
        same_layout(decode(t, s, digits, fuel), shape(t, s, fuel)),
    decreases fuel, s, 1nat,
{
    if s.members is None {
        let n = s.segments.len();
        lemma_decode_fields(t, s, digits, fuel, n);
        lemma_shape_fields(t, s, fuel, n);
        let tree = decode(t, s, digits, fuel);
        let fields = shape_fields(t, s, fuel, n);
        assert forall|i: int| 0 <= i < fields.len() implies tree.subfields[i].0 == (
        #[trigger] fields[i]).0 && same_layout(tree.subfields[i].1, fields[i].1) by {
            lemma_segment_matches_shape(t, s.segments[i], reach(t, s, digits, i), fuel);
            assert(tree.subfields[i] == decode_fields(t, s, digits, fuel, n)[i]);
        }
    }
}

/// The tree of one field lists exactly the fields of the field's shape,
/// with its digits or without.
pub proof fn lemma_segment_matches_shape(
    t: TypeTable,
    seg: SegmentModel,
    digits: Option<Seq<char>>,
    fuel: nat,
)
    ensures
        same_layout(decode_segment(t, seg, digits, fuel), shape_segment(t, seg, fuel)),
    decreases fuel, seg, 0nat,
{
    match digits {
        None => {
            lemma_blank_layout(shape_segment(t, seg, fuel));
        },
        Some(d) => match seg.nested {
            Some(inner) => {
                lemma_decode_matches_shape(t, *inner, d, fuel);
            },
            None => {
                if category_in(t, seg.ty_name) == TypeCategory::Struct && fuel > 0
                    && t.structures.contains_key(seg.ty_name) {
                    lemma_decode_matches_shape(t, t.structures[seg.ty_name], d, (fuel - 1) as nat);
                }
            },
        },
    }
}

/// `n` times the digit `'0'`.
pub open spec fn zeros(n: nat) -> Seq<char> {
    Seq::new(n, |i: int| '0')
}

/// A field of raw bits keeps its digits as they are: the leaf for a window
/// of `n` zeros holds the width `n` and `n` times `'0'`. Raw bits are what a
/// field is decoded as that owns no structure and whose type is neither
/// enumerated nor composite.
pub proof fn lemma_zero_bits_leaf(t: TypeTable, seg: SegmentModel, n: nat, fuel: nat)
    requires
        seg.nested is None,
        category_in(t, seg.ty_name) != TypeCategory::Enum,
        category_in(t, seg.ty_name) != TypeCategory::Struct,
        n <= u64::MAX,
    ensures
        decode_segment(t, seg, Some(zeros(n)), fuel) == bits_tree(n as u64, zeros(n)),
        zeros(n).len() == n,
        forall|i: int| 0 <= i < n ==> zeros(n)[i] == '0',
{
}

/// Whether `tree` holds no value at all: every node is marked undefined and
/// every leaf not present.
pub open spec fn all_absent(tree: FieldTree) -> bool
    decreases tree,
{
    &&& tree.kind == ValueKind::Undef
    &&& (tree.val is NotPresent && tree.subfields.len() == 0) || (tree.val is Struct
        && forall|i: int|
        0 <= i < tree.subfields.len() ==> all_absent((#[trigger] tree.subfields[i]).1))
}

/// A blank tree holds no value at all.
pub proof fn lemma_blank_is_absent(shape: ShapeTree)
    ensures
        all_absent(blank(shape)),
    decreases shape,
{
    match shape {
        ShapeTree::Compound(fields) => {
            lemma_blank_fields(fields, fields.len());
            let tree = blank(shape);
            assert forall|i: int| 0 <= i < tree.subfields.len() implies all_absent(
                (#[trigger] tree.subfields[i]).1,
            ) by {
                lemma_blank_is_absent(fields[i].1);
            }
        },
        _ => {},
    }
}

/// Digits that end too early never make a decode fail, and cost only the
/// fields that they do not reach. The tree of a composite lists every field,
/// whatever the number of digits. A field that the digits do not reach comes
/// out as the blank tree of its shape, which holds no value at all, and so
/// does, in a strict decode, every field after it. Every other field is
/// decoded from its own digits as if nothing were missing.
pub proof fn lemma_missing_digits(
    t: TypeTable,
    s: StructureModel,
    digits: Seq<char>,
    fuel: nat,
    i: int,
)
    requires
        s.members is None,
        0 <= i < s.segments.len(),
    ensures
        decode(t, s, digits, fuel).subfields.len() == s.segments.len(),
        decode(t, s, digits, fuel).subfields[i].0 == field_name(s.segments[i]),
        digits.len() < s.total_width - s.segments[i].lsb || (t.strict && lost_before(
            s,
            digits,
            i as nat,
        )) ==> {
            &&& decode(t, s, digits, fuel).subfields[i].1 == blank(
                shape_segment(t, s.segments[i], fuel),
            )
            &&& all_absent(decode(t, s, digits, fuel).subfields[i].1)
        },
        !(t.strict && lost_before(s, digits, i as nat)) ==> (window(
            s.total_width,
            s.segments[i].msb,
            s.segments[i].lsb,
            digits,
        ) matches Some(d) ==> decode(t, s, digits, fuel).subfields[i].1 == decode_segment(
            t,
            s.segments[i],
            Some(d),
            fuel,
        )),
{
    lemma_decode_fields(t, s, digits, fuel, s.segments.len());
    lemma_blank_is_absent(shape_segment(t, s.segments[i], fuel));
    assert(decode(t, s, digits, fuel).subfields[i] == decode_fields(
        t,
        s,
        digits,
        fuel,
        s.segments.len(),
    )[i]);
}

} // verus!
