//! The shape of a type: the names, order and nesting of the fields that a
//! decode of it yields, found without any bits.

use crate::registry::{category_in, depth_of, TypeRegistry, TypeTable};
use crate::schema::{
    lemma_structure_view, SegmentModel, StructureModel, TypeCategory, TypeSegment, TypeStructure,
};
use crate::tree::{
    field_models, lemma_field_models_push, lemma_shape_models_push, shape_models, FieldTree,
    ReprModel, ShapeTree, SubFieldTranslationResult, TranslationResult, ValueKind, ValueRepr,
    VariableInfo,
};
use vstd::prelude::*;

verus! {

/// The name under which a field is listed; a segment without a name is
/// listed as `unnamed`.
pub open spec fn field_name(seg: SegmentModel) -> Seq<char> {
    match seg.name {
        Some(n) => n,
        None => "unnamed"@,
    }
}

/// The shape of a value of the layout `s`. An enumerated type is a text; a
/// composite lists its fields in declaration order. Named references are
/// followed `fuel` deep.
pub open spec fn shape(t: TypeTable, s: StructureModel, fuel: nat) -> ShapeTree
    decreases fuel, s, s.segments.len() + 1,
{
    if s.members is Some {
        ShapeTree::Text
    } else {
        ShapeTree::Compound(shape_fields(t, s, fuel, s.segments.len()))
    }
}

/// The shapes of the first `n` fields of `s`, with their names.
pub open spec fn shape_fields(t: TypeTable, s: StructureModel, fuel: nat, n: nat) -> Seq<
    (Seq<char>, ShapeTree),
>
    decreases fuel, s, n,
{
    if n == 0 || n > s.segments.len() {
        Seq::empty()
    } else {
        let seg = s.segments[n - 1];
        shape_fields(t, s, fuel, (n - 1) as nat).push((field_name(seg), shape_segment(t, seg, fuel)))
    }
}

/// The shape of one field. A field that owns its structure has that
/// structure's shape. Any other goes by the category of its type: an
/// enumerated type is a text; a composite whose layout is registered, and
/// within `fuel`, has that layout's shape; everything else is raw bits.
pub open spec fn shape_segment(t: TypeTable, seg: SegmentModel, fuel: nat) -> ShapeTree
    decreases fuel, seg, 0nat,
{
    match seg.nested {
        Some(inner) => shape(t, *inner, fuel),
        None => match category_in(t, seg.ty_name) {
            TypeCategory::Enum => ShapeTree::Text,
            TypeCategory::Struct => if fuel > 0 && t.structures.contains_key(seg.ty_name) {
                shape(t, t.structures[seg.ty_name], (fuel - 1) as nat)
            } else {
                ShapeTree::Bits
            },
            _ => ShapeTree::Bits,
        },
    }
}

/// The shape of the type called `name`.
pub open spec fn named_shape(t: TypeTable, name: Seq<char>, fuel: nat) -> ShapeTree {
    match category_in(t, name) {
        TypeCategory::Enum => ShapeTree::Text,
        TypeCategory::Struct => if fuel > 0 && t.structures.contains_key(name) {
            shape(t, t.structures[name], (fuel - 1) as nat)
        } else {
            ShapeTree::Bits
        },
        _ => ShapeTree::Bits,
    }
}

/// The tree that stands for a value of the shape `shape` of which no bit
/// could be read: every leaf is marked as not present.
pub open spec fn blank(shape: ShapeTree) -> FieldTree
    decreases shape, 1nat,
{
    match shape {
        ShapeTree::Compound(fields) => FieldTree {
            val: ReprModel::Struct,
            subfields: blank_fields(fields, fields.len()),
            kind: ValueKind::Undef,
        },
        _ => absent_leaf(),
    }
}

/// The blank trees of the first `n` of `fields`, with their names.
pub open spec fn blank_fields(fields: Seq<(Seq<char>, ShapeTree)>, n: nat) -> Seq<
    (Seq<char>, FieldTree),
>
    decreases fields, n,
{
    if n == 0 || n > fields.len() {
        Seq::empty()
    } else {
        blank_fields(fields, (n - 1) as nat).push((fields[n - 1].0, blank(fields[n - 1].1)))
    }
}

/// The leaf that marks a value as not present.
pub open spec fn absent_leaf() -> FieldTree {
    FieldTree { val: ReprModel::NotPresent, subfields: Seq::empty(), kind: ValueKind::Undef }
}

/// The name under which the field `seg` is listed.
pub fn name_of_field(seg: &TypeSegment) -> (name: String)
    ensures
        name@ == field_name(seg@),
{
    match &seg.name {
        Some(n) => n.clone(),
        None => "unnamed".to_owned(),
    }
}

/// The shape of the layout `structure`, named references followed `fuel`
/// deep.
pub fn shape_within(reg: &TypeRegistry, structure: &TypeStructure, fuel: usize) -> (info:
    VariableInfo)
    ensures
        info@ == shape(reg@, structure@, fuel as nat),
    decreases fuel, structure,
{
    if structure.enum_definition.is_some() {
        return VariableInfo::String;
    }
    let ghost t = reg@;
    let ghost s = structure@;
    proof {
        lemma_structure_view(structure);
    }
    let mut subfields: Vec<(String, VariableInfo)> = Vec::new();
    let mut i: usize = 0;
    while i < structure.segments.len()
        invariant
            i <= structure.segments@.len(),
            t == reg@,
            s == structure@,
            s.segments.len() == structure.segments@.len(),
            forall|k: int|
                0 <= k < structure.segments@.len() ==> s.segments[k] == (
                #[trigger] structure.segments@[k])@,
            shape_models(subfields@) == shape_fields(t, s, fuel as nat, i as nat),
        decreases structure.segments@.len() - i,
    {
        let seg = &structure.segments[i];
        let name = name_of_field(seg);
        let info = segment_shape_within(reg, seg, fuel);
        proof {
            lemma_shape_models_push(subfields@, (name, info));
        }
        subfields.push((name, info));
        i += 1;
    }
    VariableInfo::Compound { subfields }
}

/// The shape of the field `seg`, named references followed `fuel` deep.
pub fn segment_shape_within(reg: &TypeRegistry, seg: &TypeSegment, fuel: usize) -> (info:
    VariableInfo)
    ensures
        info@ == shape_segment(reg@, seg@, fuel as nat),
    decreases fuel, seg,
{
    match &seg.nested_structure {
        Some(inner) => shape_within(reg, inner, fuel),
        None => match reg.category_of(seg.ty_name.as_str()) {
            TypeCategory::Enum => VariableInfo::String,
            TypeCategory::Struct => {
                if fuel > 0 {
                    match reg.structure_of(seg.ty_name.as_str()) {
                        Some(layout) => shape_within(reg, layout, fuel - 1),
                        None => VariableInfo::Bits,
                    }
                } else {
                    VariableInfo::Bits
                }
            },
            _ => VariableInfo::Bits,
        },
    }
}

/// The shape of a value of the layout `structure`: the fields that a decode
/// of it lists, by name, in order and with their nesting.
pub fn get_struct_fields_info(reg: &TypeRegistry, structure: &TypeStructure) -> (info: VariableInfo)
    ensures
        info@ == shape(reg@, structure@, depth_of(reg@)),
{
    shape_within(reg, structure, reg.depth())
}

/// The shape of a value of the type called `name`: a text for an enumerated
/// type, the shape of its layout for a composite whose layout is registered,
/// raw bits for everything else.
pub fn shape_of(reg: &TypeRegistry, name: &str) -> (info: VariableInfo)
    ensures
        info@ == named_shape(reg@, name@, depth_of(reg@) + 1),
{
    match reg.category_of(name) {
        TypeCategory::Enum => VariableInfo::String,
        TypeCategory::Struct => match reg.structure_of(name) {
            Some(layout) => shape_within(reg, layout, reg.depth()),
            None => VariableInfo::Bits,
        },
        _ => VariableInfo::Bits,
    }
}

/// The leaf that marks a value as not present.
pub fn absent() -> (r: TranslationResult)
    ensures
        r@ == absent_leaf(),
{
    TranslationResult { val: ValueRepr::NotPresent, subfields: Vec::new(), kind: ValueKind::Undef }
}

/// The tree for a value of the shape `info` of which no bit could be read.
#[verifier::loop_isolation(false)]
pub fn blank_of(info: &VariableInfo) -> (r: TranslationResult)
    ensures
        r@ == blank(info@),
    decreases info,
{
    match info {
        VariableInfo::Compound { subfields } => {
            let ghost fields = shape_models(subfields@);
            proof {
                lemma_shape_models(subfields@);
            }
            let mut out: Vec<SubFieldTranslationResult> = Vec::new();
            let mut i: usize = 0;
            while i < subfields.len()
                invariant
                    i <= subfields@.len(),
                    fields == shape_models(subfields@),
                    fields.len() == subfields@.len(),
                    field_models(out@) == blank_fields(fields, i as nat),
                decreases subfields@.len() - i,
            {
                proof {
                    lemma_shape_models(subfields@);
                }
                let field = SubFieldTranslationResult {
                    name: subfields[i].0.clone(),
                    result: blank_of(&subfields[i].1),
                };
                proof {
                    lemma_field_models_push(out@, field);
                }
                out.push(field);
                i += 1;
            }
            TranslationResult { val: ValueRepr::Struct, subfields: out, kind: ValueKind::Undef }
        },
        _ => absent(),
    }
}

/// `shape_models` keeps the length and models each named shape in its place.
pub proof fn lemma_shape_models(fields: Seq<(String, VariableInfo)>)
    ensures
        shape_models(fields).len() == fields.len(),
        forall|i: int|
            0 <= i < fields.len() ==> shape_models(fields)[i] == ((#[trigger] fields[i]).0@, fields[i].1@),
    decreases fields.len(),
{
    if fields.len() > 0 {
        let front = fields.drop_last();
        lemma_shape_models(front);
        assert(shape_models(fields) == shape_models(front).push((fields.last().0@, fields.last().1@)));
        assert forall|i: int| 0 <= i < fields.len() implies shape_models(fields)[i] == ((
        #[trigger] fields[i]).0@, fields[i].1@) by {
            if i < fields.len() - 1 {
                assert(front[i] == fields[i]);
            }
        }
    }
}

} // verus!
