//! A schema-driven bitfield decoder for recorded hardware signals: a
//! registry of composite, enumerated and primitive types, the resolution of
//! a signal's scope and name to its type, and the decoding of the signal's
//! bits into a tree of named fields.

pub mod decode;
pub mod depth;
pub mod enums;
pub mod ingest;
pub mod layout;
pub mod names;
pub mod registry;
pub mod schema;
pub mod scope;
pub mod shape;
pub mod signal;
pub mod text;
pub mod translator;
pub mod tree;

pub use decode::{
    extract_bit_chunk, translate_compound, translate_data_by_category, translate_enum,
    translate_recursive,
};
pub use ingest::{initialize_static_data, process_module_blocks, process_typedef};
pub use layout::process_nested_segments;
pub use registry::{Registry, TypeRegistry};
pub use schema::{
    EnumDefinition, ModuleData, RawBlockDefinition, RawBlockPort, TypeCategory, TypeSegment,
    TypeStructure,
};
pub use scope::get_current_module;
pub use shape::{get_struct_fields_info, shape_of};
pub use signal::{get_variable_type_name, parse_signal_name, resolve_signal};
pub use translator::{create_no_translation_result, translate, translates, variable_info};
