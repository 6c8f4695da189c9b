//! The registries that decoding and resolution read: types by name, the
//! blocks of each module type, and the scope alias table.

use crate::enums::{build_enum, enum_model, RawEnumMember};
use crate::layout::{bounds_of, composite, grouped, process_nested_segments, raw_models, RawSegment};
use crate::names::NameMap;
use crate::schema::{
    AliasEntry, AliasModel, BlockModel, ModuleData, RawBlockDefinition, StructureModel,
    TypeCategory, TypeStructure,
};
use vstd::prelude::*;

verus! {

/// The types of a design: the category of each named type and the layout of
/// each composite or enumerated one. `strict` says how a decode treats the
/// fields that follow one whose digits are missing: a strict decode gives
/// them up too, any other decodes them as far as their own digits reach.
#[derive(Debug)]
pub struct TypeRegistry {
    pub categories: NameMap<TypeCategory>,
    pub typedefs: NameMap<TypeStructure>,
    pub strict: bool,
}

/// Model of a `TypeRegistry`.
pub ghost struct TypeTable {
    pub categories: Map<Seq<char>, TypeCategory>,
    pub structures: Map<Seq<char>, StructureModel>,
    pub strict: bool,
}

/// How deep a decode by `t` follows named references: as deep as there are
/// layouts in `t`, which is as deep as references can go without coming back
/// to a layout already passed.
pub open spec fn depth_of(t: TypeTable) -> nat {
    t.structures.dom().len()
}

impl View for TypeRegistry {
    type V = TypeTable;

    open spec fn view(&self) -> TypeTable {
        TypeTable {
            categories: self.categories@,
            structures: self.typedefs@.map_values(|s: TypeStructure| s@),
            strict: self.strict,
        }
    }
}

/// The table without any type, for decodes that are not strict.
pub open spec fn empty_table() -> TypeTable {
    TypeTable { categories: Map::empty(), structures: Map::empty(), strict: false }
}

/// The category of the type called `name`; a name that the table does not
/// know is `Bits`.
pub open spec fn category_in(table: TypeTable, name: Seq<char>) -> TypeCategory {
    if table.categories.contains_key(name) {
        table.categories[name]
    } else {
        TypeCategory::Bits
    }
}

/// `table` after the layout `structure` was registered under `name` with the
/// category `category`. A layout registered under that name before is
/// replaced.
pub open spec fn with_layout(
    table: TypeTable,
    name: Seq<char>,
    category: TypeCategory,
    structure: StructureModel,
) -> TypeTable {
    TypeTable {
        categories: table.categories.insert(name, category),
        structures: table.structures.insert(name, structure),
        strict: table.strict,
    }
}

/// `table` after `name` was registered as a primitive type.
pub open spec fn with_primitive(table: TypeTable, name: Seq<char>) -> TypeTable {
    TypeTable {
        categories: table.categories.insert(name, TypeCategory::Bits),
        structures: table.structures,
        strict: table.strict,
    }
}

impl TypeRegistry {
    /// A registry without any type.
    pub fn new() -> (r: Self)
        ensures
            r@ == empty_table(),
    {
        let r = TypeRegistry { categories: NameMap::new(), typedefs: NameMap::new(), strict: false };
        assert(r@.structures =~= Map::empty());
        r
    }

    /// Makes decodes strict, or not.
    pub fn set_strict(&mut self, strict: bool)
        ensures
            final(self)@ == (TypeTable { strict, ..old(self)@ }),
    {
        self.strict = strict;
    }

    fn add_layout(&mut self, name: &str, category: TypeCategory, structure: TypeStructure)
        ensures
            final(self)@ == with_layout(old(self)@, name@, category, structure@),
    {
        self.categories.insert(name.to_owned(), category);
        self.typedefs.insert(name.to_owned(), structure);
        assert(final(self)@.structures =~= old(self)@.structures.insert(name@, structure@));
    }

    /// Registers the composite type `name` with the fields that `segments`
    /// stand for, and says whether it did: an empty list registers nothing.
    pub fn register_struct(&mut self, name: &str, segments: &[RawSegment]) -> (done: bool)
        ensures
            done == (segments@.len() > 0),
            done ==> final(self)@ == with_layout(
                old(self)@,
                name@,
                TypeCategory::Struct,
                composite(grouped(raw_models(segments@))),
            ),
            !done ==> final(self)@ == old(self)@,
    {
        if segments.len() == 0 {
            return false;
        }
        let fields = process_nested_segments(segments);
        let bounds = bounds_of(&fields);
        let structure = TypeStructure {
            total_width: bounds.0 + 1,
            segments: fields,
            enum_definition: None,
        };
        self.add_layout(name, TypeCategory::Struct, structure);
        true
    }

    /// Registers the enumerated type `name` with the members `members`.
    pub fn register_enum(&mut self, name: &str, members: &[RawEnumMember])
        ensures
            final(self)@ == with_layout(
                old(self)@,
                name@,
                TypeCategory::Enum,
                enum_model(name@, members@),
            ),
    {
        let structure = build_enum(name, members);
        self.add_layout(name, TypeCategory::Enum, structure);
    }

    /// Registers `name` as a primitive type: its category is `Bits`.
    pub fn register_primitive(&mut self, name: &str)
        ensures
            final(self)@ == with_primitive(old(self)@, name@),
    {
        self.categories.insert(name.to_owned(), TypeCategory::Bits);
    }

    /// The category of the type called `name`; `Bits` for an unknown name.
    pub fn category_of(&self, name: &str) -> (category: TypeCategory)
        ensures
            category == category_in(self@, name@),
    {
        match self.categories.get(name) {
            Some(c) => *c,
            None => TypeCategory::Bits,
        }
    }

    /// The layout registered under `name`, if there is one.
    pub fn structure_of(&self, name: &str) -> (found: Option<&TypeStructure>)
        ensures
            match found {
                Some(s) => self@.structures.contains_key(name@) && s@ == self@.structures[name@],
                None => !self@.structures.contains_key(name@),
            },
    {
        self.typedefs.get(name)
    }

    /// How deep a decode follows named references: the number of registered
    /// layouts.
    pub fn depth(&self) -> (d: usize)
        ensures
            d == depth_of(self@),
    {
        assert(self@.structures.dom() =~= self.typedefs@.dom());
        self.typedefs.len()
    }
}

/// Everything that resolution and decoding read, built once and read-only
/// afterwards.
#[derive(Debug)]
pub struct Registry {
    pub types: TypeRegistry,
    pub modules: NameMap<ModuleData>,
    pub aliases: Vec<AliasEntry>,
}

impl Registry {
    /// A registry that knows no type, no module and no scope.
    pub fn new() -> (reg: Self)
        ensures
            reg.types@ == empty_table(),
            module_models(reg.modules@) == Map::<Seq<char>, Map<Seq<char>, BlockModel>>::empty(),
            reg.aliases@.len() == 0,
    {
        let reg = Registry { types: TypeRegistry::new(), modules: NameMap::new(), aliases: Vec::new() };
        assert(module_models(reg.modules@) =~= Map::<Seq<char>, Map<Seq<char>, BlockModel>>::empty());
        reg
    }

    /// The blocks of the module type `module_type`, by instance name, if the
    /// module type is known.
    pub fn blocks_of(&self, module_type: &str) -> (found: Option<&NameMap<RawBlockDefinition>>)
        ensures
            match found {
                Some(blocks) => module_models(self.modules@).contains_key(module_type@)
                    && module_models(self.modules@)[module_type@] == blocks@.map_values(
                    |block: RawBlockDefinition| block@,
                ),
                None => !module_models(self.modules@).contains_key(module_type@),
            },
    {
        match self.modules.get(module_type) {
            Some(data) => Some(&data.blocks),
            None => None,
        }
    }
}

/// The blocks of every module type, by module type and instance name.
pub open spec fn module_models(modules: Map<Seq<char>, ModuleData>) -> Map<
    Seq<char>,
    Map<Seq<char>, BlockModel>,
> {
    modules.map_values(|m: ModuleData| m@)
}

/// The models of the lines of an alias table, in order.
pub open spec fn alias_models(aliases: Seq<AliasEntry>) -> Seq<AliasModel> {
    Seq::new(aliases.len(), |i: int| aliases[i]@)
}

} // verus!
