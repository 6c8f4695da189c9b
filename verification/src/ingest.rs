//! Building the registries from the parsed design description.

use crate::enums::{enum_model, lemma_enum_width_covers, RawEnumMember};
use crate::layout::{
    composite, grouped, lemma_grouped_widths, raw_models, width_covers_fields, RawSegment,
};
use crate::names::{NameEntry, NameMap};
use crate::registry::{
    empty_table, module_models, with_layout, with_primitive, Registry, TypeRegistry, TypeTable,
};
use crate::schema::{
    AliasEntry, BlockModel, ModuleData, RawBlockDefinition, RawBlockPort, TypeCategory,
};
use crate::text::{chars_of, has_prefix, same_chars, starts_with};
use vstd::prelude::*;

verus! {

/// What a typedef of the design description holds, as far as it could be
/// read: the segments of a composite type, the members of an enumerated
/// type, or neither.
#[derive(Debug, Clone)]
pub enum TypedefBody {
    Segments(Vec<RawSegment>),
    Members(Vec<RawEnumMember>),
    Other,
}

/// A named typedef.
#[derive(Debug, Clone)]
pub struct Typedef {
    pub name: String,
    pub body: TypedefBody,
}

/// One module type of the design description: its typedefs and its blocks,
/// each in the order of the description.
#[derive(Debug, Clone)]
pub struct ModuleContent {
    pub name: String,
    pub typedefs: Vec<Typedef>,
    pub blocks: Vec<NameEntry<RawBlockDefinition>>,
}

/// Whether `name` is the name of a primitive type: a bit vector, a boolean,
/// a clock or a reset.
pub open spec fn is_primitive_name(name: Seq<char>) -> bool {
    has_prefix(name, "Bit#("@) || name == "Bool"@ || name == "Clock"@ || name == "Reset"@
}

/// The table after the typedef `name` with the body `body` was taken in. A
/// primitive name is registered as a primitive whatever its body holds. A
/// body with segments is registered as a composite type and one with members
/// as an enumerated type. Everything else degrades to a primitive: no
/// typedef makes the construction fail.
pub open spec fn with_typedef(t: TypeTable, name: Seq<char>, body: TypedefBody) -> TypeTable {
    if is_primitive_name(name) {
        with_primitive(t, name)
    } else {
        match body {
            TypedefBody::Segments(raws) => if raws@.len() > 0 {
                with_layout(t, name, TypeCategory::Struct, composite(grouped(raw_models(raws@))))
            } else {
                with_primitive(t, name)
            },
            TypedefBody::Members(members) => if members@.len() > 0 {
                with_layout(t, name, TypeCategory::Enum, enum_model(name, members@))
            } else {
                with_primitive(t, name)
            },
            TypedefBody::Other => with_primitive(t, name),
        }
    }
}

/// Whether `name` is the name of a primitive type.
pub fn primitive_name(name: &str) -> (yes: bool)
    ensures
        yes == is_primitive_name(name@),
{
    let chars = chars_of(name);
    let bits = chars_of("Bit#(");
    let boolean = chars_of("Bool");
    let clock = chars_of("Clock");
    let reset = chars_of("Reset");
    starts_with(chars.as_slice(), bits.as_slice()) || same_chars(
        chars.as_slice(),
        boolean.as_slice(),
    ) || same_chars(chars.as_slice(), clock.as_slice()) || same_chars(
        chars.as_slice(),
        reset.as_slice(),
    )
}

/// Takes the typedef `name` into `types`: see `with_typedef`.
pub fn process_typedef(name: &str, body: &TypedefBody, types: &mut TypeRegistry)
    ensures
        final(types)@ == with_typedef(old(types)@, name@, *body),
{
    if primitive_name(name) {
        types.register_primitive(name);
        return ;
    }
    match body {
        TypedefBody::Segments(raws) => {
            if !types.register_struct(name, raws.as_slice()) {
                types.register_primitive(name);
            }
        },
        TypedefBody::Members(members) => {
            if members.len() > 0 {
                types.register_enum(name, members.as_slice());
            } else {
                types.register_primitive(name);
            }
        },
        TypedefBody::Other => {
            types.register_primitive(name);
        },
    }
}

/// The blocks that a list of named blocks stands for; of two blocks with one
/// name the later counts.
pub open spec fn block_map(entries: Seq<NameEntry<RawBlockDefinition>>) -> Map<Seq<char>, BlockModel>
    decreases entries.len(),
{
    if entries.len() == 0 {
        Map::empty()
    } else {
        block_map(entries.drop_last()).insert(entries.last().name@, entries.last().value@)
    }
}

/// A copy of `block`.
pub fn copy_block(block: &RawBlockDefinition) -> (copy: RawBlockDefinition)
    ensures
        copy@ == block@,
{
    let mut ports: Vec<RawBlockPort> = Vec::new();
    let mut i: usize = 0;
    while i < block.ports.len()
        invariant
            i <= block.ports@.len(),
            ports@.len() == i,
            forall|j: int| 0 <= j < i ==> ports@[j]@ == block.ports@[j]@,
        decreases block.ports@.len() - i,
    {
        ports.push(
            RawBlockPort {
                name: block.ports[i].name.clone(),
                ty_name: block.ports[i].ty_name.clone(),
            },
        );
        i += 1;
    }
    let copy = RawBlockDefinition { block_type_name: block.block_type_name.clone(), ports };
    assert(copy@.ports =~= block@.ports);
    copy
}

/// Collects the blocks of one module type by instance name.
pub fn process_module_blocks(raw_blocks: &[NameEntry<RawBlockDefinition>]) -> (data: ModuleData)
    ensures
        data@ == block_map(raw_blocks@),
{
    let mut blocks: NameMap<RawBlockDefinition> = NameMap::new();
    let mut i: usize = 0;
    assert((ModuleData { blocks })@ =~= Map::empty());
    while i < raw_blocks.len()
        invariant
            i <= raw_blocks@.len(),
            (ModuleData { blocks })@ == block_map(raw_blocks@.take(i as int)),
        decreases raw_blocks@.len() - i,
    {
        let ghost before = (ModuleData { blocks })@;
        let block = copy_block(&raw_blocks[i].value);
        blocks.insert(raw_blocks[i].name.clone(), block);
        assert(raw_blocks@.take(i + 1).drop_last() =~= raw_blocks@.take(i as int));
        assert((ModuleData { blocks })@ =~= before.insert(
            raw_blocks@[i as int].name@,
            raw_blocks@[i as int].value@,
        ));
        i += 1;
    }
    assert(raw_blocks@.take(i as int) =~= raw_blocks@);
    ModuleData { blocks }
}

/// The table after the typedefs `typedefs` were taken in, in order.
pub open spec fn with_typedefs(t: TypeTable, typedefs: Seq<Typedef>) -> TypeTable
    decreases typedefs.len(),
{
    if typedefs.len() == 0 {
        t
    } else {
        with_typedef(
            with_typedefs(t, typedefs.drop_last()),
            typedefs.last().name@,
            typedefs.last().body,
        )
    }
}

/// The table after the typedefs of the module types `design` were taken in,
/// module by module. Type names are global: a typedef replaces an earlier
/// one of the same name, whichever module made it.
pub open spec fn types_of(design: Seq<ModuleContent>) -> TypeTable
    decreases design.len(),
{
    if design.len() == 0 {
        empty_table()
    } else {
        with_typedefs(types_of(design.drop_last()), design.last().typedefs@)
    }
}

/// The blocks of the module types `design`, by module type; of two module
/// types with one name the later counts.
pub open spec fn modules_of(design: Seq<ModuleContent>) -> Map<Seq<char>, Map<Seq<char>, BlockModel>>
    decreases design.len(),
{
    if design.len() == 0 {
        Map::empty()
    } else {
        modules_of(design.drop_last()).insert(design.last().name@, block_map(design.last().blocks@))
    }
}

/// Builds the registries from the module types of the design description
/// and the lines of the scope alias table.
pub fn initialize_static_data(design: &[ModuleContent], aliases: Vec<AliasEntry>) -> (reg: Registry)
    ensures
        reg.types@ == types_of(design@),
        module_models(reg.modules@) == modules_of(design@),
        reg.aliases == aliases,
{
    let mut types = TypeRegistry::new();
    let mut modules: NameMap<ModuleData> = NameMap::new();
    assert(module_models(modules@) =~= Map::empty());
    let mut m: usize = 0;
    while m < design.len()
        invariant
            m <= design@.len(),
            types@ == types_of(design@.take(m as int)),
            module_models(modules@) == modules_of(design@.take(m as int)),
        decreases design@.len() - m,
    {
        let content = &design[m];
        assert(design@.take(m + 1).drop_last() =~= design@.take(m as int));
        let mut k: usize = 0;
        while k < content.typedefs.len()
            invariant
                k <= content.typedefs@.len(),
                types@ == with_typedefs(
                    types_of(design@.take(m as int)),
                    content.typedefs@.take(k as int),
                ),
            decreases content.typedefs@.len() - k,
        {
            assert(content.typedefs@.take(k + 1).drop_last() =~= content.typedefs@.take(k as int));
            process_typedef(content.typedefs[k].name.as_str(), &content.typedefs[k].body, &mut types);
            k += 1;
        }
        assert(content.typedefs@.take(k as int) =~= content.typedefs@);
        let data = process_module_blocks(content.blocks.as_slice());
        let ghost before = module_models(modules@);
        modules.insert(content.name.clone(), data);
        assert(module_models(modules@) =~= before.insert(content.name@, data@));
        m += 1;
    }
    assert(design@.take(m as int) =~= design@);
    Registry { types, modules, aliases }
}

/// Whether every layout of `t`, and every composite that a field of one
/// owns, is one bit wider than the highest upper bound among its fields.
pub open spec fn widths_cover(t: TypeTable) -> bool {
    forall|name: Seq<char>| #[trigger]
        t.structures.contains_key(name) ==> width_covers_fields(t.structures[name])
}

/// Taking a typedef in keeps every layout as wide as its fields reach.
pub proof fn lemma_typedef_widths(t: TypeTable, name: Seq<char>, body: TypedefBody)
    requires
        widths_cover(t),
    ensures
        widths_cover(with_typedef(t, name, body)),
{
    match body {
        TypedefBody::Segments(raws) => {
            lemma_grouped_widths(raw_models(raws@));
        },
        TypedefBody::Members(members) => {
            lemma_enum_width_covers(name, members@);
        },
        TypedefBody::Other => {},
    }
}

/// Taking typedefs in, one after the other, does so too.
pub proof fn lemma_typedefs_widths(t: TypeTable, typedefs: Seq<Typedef>)
    requires
        widths_cover(t),
    ensures
        widths_cover(with_typedefs(t, typedefs)),
    decreases typedefs.len(),
{
    if typedefs.len() > 0 {
        lemma_typedefs_widths(t, typedefs.drop_last());
        lemma_typedef_widths(
            with_typedefs(t, typedefs.drop_last()),
            typedefs.last().name@,
            typedefs.last().body,
        );
    }
}

/// Every type built from a design description is one bit wider than the
/// highest upper bound among its fields, and so is every composite that one
/// of its fields owns.
pub proof fn lemma_design_widths(design: Seq<ModuleContent>)
    ensures
        widths_cover(types_of(design)),
    decreases design.len(),
{
    if design.len() > 0 {
        lemma_design_widths(design.drop_last());
        lemma_typedefs_widths(types_of(design.drop_last()), design.last().typedefs@);
    }
}

} // verus!
