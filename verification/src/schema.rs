//! The type schema: categories, bit-bounded segments, composite and
//! enumerated structures, module blocks and scope aliases, each with its
//! mathematical model.

use crate::names::NameMap;
use std::collections::HashMap;
use vstd::prelude::*;

verus! {

/// Coarse kind of a type; it selects how a field's bits are decoded.
#[derive(Debug, Clone, Copy, PartialEq, Eq, Structural)]
pub enum TypeCategory {
    Bits,
    Enum,
    Bool,
    Struct,
    Union,
    Interface,
}

/// Tag table of an enumerated type: symbolic names by tag. Tags need not be
/// contiguous.
#[derive(Debug, Clone)]
pub struct EnumDefinition {
    pub members: HashMap<u64, String>,
}

/// A named field of a composite type. `msb` and `lsb` are its inclusive bit
/// bounds, counted from the least significant bit of the parent. A field that
/// was built as a group of dotted names owns its inner structure.
#[derive(Debug)]
pub struct TypeSegment {
    pub name: Option<String>,
    pub msb: usize,
    pub lsb: usize,
    pub ty_name: String,
    pub nested_structure: Option<Box<TypeStructure>>,
}

/// A type's layout: composite (its segments are the fields, in declaration
/// order) or enumerated (a tag table, and one segment that carries the type's
/// name).
#[derive(Debug)]
pub struct TypeStructure {
    pub total_width: usize,
    pub segments: Vec<TypeSegment>,
    pub enum_definition: Option<EnumDefinition>,
}

/// Model of a `TypeSegment`.
pub ghost struct SegmentModel {
    pub name: Option<Seq<char>>,
    pub msb: nat,
    pub lsb: nat,
    pub ty_name: Seq<char>,
    pub nested: Option<Box<StructureModel>>,
}

/// Model of a `TypeStructure`; `members` is the tag table of an enumerated
/// type.
pub ghost struct StructureModel {
    pub total_width: nat,
    pub segments: Seq<SegmentModel>,
    pub members: Option<Map<u64, Seq<char>>>,
}

impl View for EnumDefinition {
    type V = Map<u64, Seq<char>>;

    open spec fn view(&self) -> Map<u64, Seq<char>> {
        Map::new(|tag: u64| self.members@.contains_key(tag), |tag: u64| self.members@[tag]@)
    }
}

impl View for TypeSegment {
    type V = SegmentModel;

    open spec fn view(&self) -> SegmentModel
        decreases self,
    {
        SegmentModel {
            name: match self.name {
                Some(n) => Some(n@),
                None => None,
            },
            msb: self.msb as nat,
            lsb: self.lsb as nat,
            ty_name: self.ty_name@,
            nested: match self.nested_structure {
                Some(inner) => Some(Box::new((*inner)@)),
                None => None,
            },
        }
    }
}

impl View for TypeStructure {
    type V = StructureModel;

    open spec fn view(&self) -> StructureModel
        decreases self,
    {
        StructureModel {
            total_width: self.total_width as nat,
            segments: segment_models(self.segments@),
            members: match self.enum_definition {
                Some(table) => Some(table@),
                None => None,
            },
        }
    }
}

/// The models of the segments of `segments`, in order.
pub open spec fn segment_models(segments: Seq<TypeSegment>) -> Seq<SegmentModel>
    decreases segments,
{
    if segments.len() == 0 {
        Seq::empty()
    } else {
        segment_models(segments.drop_last()).push(segments.last()@)
    }
}

/// `segment_models` keeps the length and models each segment in its place.
pub proof fn lemma_segment_models(segments: Seq<TypeSegment>)
    ensures
        segment_models(segments).len() == segments.len(),
        forall|i: int|
            0 <= i < segments.len() ==> segment_models(segments)[i] == (#[trigger] segments[i])@,
    decreases segments.len(),
{
    if segments.len() > 0 {
        lemma_segment_models(segments.drop_last());
        assert forall|i: int| 0 <= i < segments.len() implies segment_models(segments)[i] == (
        #[trigger] segments[i])@ by {
            let front = segments.drop_last();
            assert(segment_models(segments) == segment_models(front).push(segments.last()@));
            if i < segments.len() - 1 {
                assert(front[i] == segments[i]);
                assert(segment_models(front)[i] == front[i]@);
            }
        }
    }
}

/// One more segment adds its model at the end.
pub proof fn lemma_segment_models_push(segments: Seq<TypeSegment>, last: TypeSegment)
    ensures
        segment_models(segments.push(last)) == segment_models(segments).push(last@),
{
    assert(segments.push(last).drop_last() =~= segments);
}

/// The models of two runs of segments, one after the other.
pub proof fn lemma_segment_models_add(first: Seq<TypeSegment>, second: Seq<TypeSegment>)
    ensures
        segment_models(first + second) == segment_models(first) + segment_models(second),
{
    lemma_segment_models(first);
    lemma_segment_models(second);
    lemma_segment_models(first + second);
    assert forall|i: int| 0 <= i < first.len() + second.len() implies segment_models(
        first + second,
    )[i] == (segment_models(first) + segment_models(second))[i] by {
        if i < first.len() {
            assert((first + second)[i] == first[i]);
        } else {
            assert((first + second)[i] == second[i - first.len()]);
        }
    }
    assert(segment_models(first + second) =~= segment_models(first) + segment_models(second));
}

/// The model of a structure lists the models of its segments.
pub proof fn lemma_structure_view(s: &TypeStructure)
    ensures
        s@.segments.len() == s.segments@.len(),
        forall|i: int| 0 <= i < s.segments@.len() ==> s@.segments[i] == (#[trigger] s.segments@[i])@,
{
    lemma_segment_models(s.segments@);
}

/// A port of a block: its name and the name of its type.
#[derive(Debug, Clone)]
pub struct RawBlockPort {
    pub name: String,
    pub ty_name: String,
}

/// A sub-instance of a module: its declared type and its ports in
/// declaration order.
#[derive(Debug, Clone)]
pub struct RawBlockDefinition {
    pub block_type_name: String,
    pub ports: Vec<RawBlockPort>,
}

/// The sub-instances of one module type, by instance name.
#[derive(Debug)]
pub struct ModuleData {
    pub blocks: NameMap<RawBlockDefinition>,
}

/// One line of the scope alias table: the scope path `path` of a recorded
/// trace stands for the module type `implementation`.
#[derive(Debug, Clone)]
pub struct AliasEntry {
    pub instance: String,
    pub implementation: String,
    pub path: Vec<String>,
}

/// Model of a `RawBlockPort`.
pub ghost struct PortModel {
    pub name: Seq<char>,
    pub ty_name: Seq<char>,
}

/// Model of a `RawBlockDefinition`.
pub ghost struct BlockModel {
    pub ty_name: Seq<char>,
    pub ports: Seq<PortModel>,
}

/// Model of an `AliasEntry`.
pub ghost struct AliasModel {
    pub instance: Seq<char>,
    pub implementation: Seq<char>,
    pub path: Seq<Seq<char>>,
}

impl View for RawBlockPort {
    type V = PortModel;

    open spec fn view(&self) -> PortModel {
        PortModel { name: self.name@, ty_name: self.ty_name@ }
    }
}

impl View for RawBlockDefinition {
    type V = BlockModel;

    open spec fn view(&self) -> BlockModel {
        BlockModel {
            ty_name: self.block_type_name@,
            ports: Seq::new(self.ports@.len(), |i: int| self.ports@[i]@),
        }
    }
}

impl View for ModuleData {
    type V = Map<Seq<char>, BlockModel>;

    open spec fn view(&self) -> Map<Seq<char>, BlockModel> {
        self.blocks@.map_values(|block: RawBlockDefinition| block@)
    }
}

/// The texts of a sequence of strings.
pub open spec fn texts(strings: Seq<String>) -> Seq<Seq<char>> {
    Seq::new(strings.len(), |i: int| strings[i]@)
}

impl View for AliasEntry {
    type V = AliasModel;

    open spec fn view(&self) -> AliasModel {
        AliasModel {
            instance: self.instance@,
            implementation: self.implementation@,
            path: texts(self.path@),
        }
    }
}

} // verus!
