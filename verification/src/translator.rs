//! The operations that a waveform viewer asks for, on plain values: whether
//! a signal is worth decoding, its shape, and its decoded value.

use crate::decode::{
    decode, lemma_decode_matches_shape, same_layout, text_tree, translate_recursive, zeros,
};
use crate::registry::{category_in, depth_of, Registry, TypeTable};
use crate::schema::{texts, TypeCategory};
use crate::shape::{get_struct_fields_info, shape};
use crate::signal::{get_variable_type_name, variable_type};
use crate::text::{chars_of, joined};
use crate::tree::{
    ShapeTree, TranslationPreference, TranslationResult, ValueKind, ValueRepr, VariableInfo,
};
use vstd::prelude::*;

verus! {

/// Why a signal could not be decoded.
#[derive(Debug, PartialEq, Eq)]
pub enum TranslateError {
    /// No type could be found for the signal of this name.
    TypeUnresolved(String),
    /// The type of this name has no registered layout.
    LayoutMissing(String),
}

impl TranslateError {
    /// The error in words.
    pub fn message(&self) -> (text: String)
        ensures
            text@ == match self {
                TranslateError::TypeUnresolved(name) => "Failed to determine type for variable: "@
                    + name@,
                TranslateError::LayoutMissing(name) => "Struct definition missing for: "@ + name@,
            },
    {
        match self {
            TranslateError::TypeUnresolved(name) => joined(
                "Failed to determine type for variable: ",
                name.as_str(),
            ),
            TranslateError::LayoutMissing(name) => joined(
                "Struct definition missing for: ",
                name.as_str(),
            ),
        }
    }
}

/// The result that stands for "nothing to show": an empty text.
pub fn create_no_translation_result() -> (r: TranslationResult)
    ensures
        r@ == text_tree(Seq::empty()),
{
    TranslationResult {
        val: ValueRepr::String(String::new()),
        subfields: Vec::new(),
        kind: ValueKind::Normal,
    }
}

/// Whether a signal of the type `ty` is worth decoding: composite and
/// enumerated types are, raw bits and signals without a type are not.
pub open spec fn preference(t: TypeTable, ty: Option<Seq<char>>) -> TranslationPreference {
    match ty {
        None => TranslationPreference::No,
        Some(name) => match category_in(t, name) {
            TypeCategory::Struct | TypeCategory::Union | TypeCategory::Interface | TypeCategory::Enum => {
                TranslationPreference::Prefer
            },
            _ => TranslationPreference::No,
        },
    }
}

/// Whether the signal called `name` under the scope `scope_path` is worth
/// decoding.
pub fn translates(reg: &Registry, scope_path: &[String], name: &str) -> (r: TranslationPreference)
    ensures
        r == preference(reg.types@, variable_type(*reg, texts(scope_path@), name@)),
{
    match get_variable_type_name(reg, scope_path, name) {
        None => TranslationPreference::No,
        Some(ty) => match reg.types.category_of(ty.as_str()) {
            TypeCategory::Struct | TypeCategory::Union | TypeCategory::Interface | TypeCategory::Enum => {
                TranslationPreference::Prefer
            },
            _ => TranslationPreference::No,
        },
    }
}

/// `digits` with zeros in front up to the width `width`; digits that are as
/// many or more are left as they are.
pub open spec fn padded(width: nat, digits: Seq<char>) -> Seq<char> {
    if digits.len() < width {
        zeros((width - digits.len()) as nat) + digits
    } else {
        digits
    }
}

/// `digits` with zeros in front up to the width `width`.
pub fn pad_digits(width: usize, digits: &str) -> (out: Vec<char>)
    ensures
        out@ == padded(width as nat, digits@),
{
    let mut tail = chars_of(digits);
    let missing: usize = if tail.len() < width {
        width - tail.len()
    } else {
        0
    };
    let mut out: Vec<char> = Vec::new();
    let mut i: usize = 0;
    while i < missing
        invariant
            i <= missing,
            out@ == zeros(i as nat),
        decreases missing - i,
    {
        out.push('0');
        i += 1;
        assert(out@ =~= zeros(i as nat));
    }
    out.append(&mut tail);
    proof {
        if digits@.len() >= width {
            assert(out@ =~= digits@);
        }
    }
    out
}

/// Decodes the value `digits` of the signal called `name` under the scope
/// `scope_path`. The signal's type is resolved and its layout looked up; the
/// digits are padded with zeros to the width of the layout and decoded by
/// it. The two errors say which of the two lookups failed.
pub fn translate(reg: &Registry, scope_path: &[String], name: &str, digits: &str) -> (r: Result<
    TranslationResult,
    TranslateError,
>)
    ensures
        match variable_type(*reg, texts(scope_path@), name@) {
            None => r matches Err(TranslateError::TypeUnresolved(n)) && n@ == name@,
            Some(ty) => if reg.types@.structures.contains_key(ty) {
                r matches Ok(tree) && tree@ == decode(
                    reg.types@,
                    reg.types@.structures[ty],
                    padded(reg.types@.structures[ty].total_width, digits@),
                    depth_of(reg.types@),
                )
            } else {
                r matches Err(TranslateError::LayoutMissing(n)) && n@ == ty
            },
        },
{
    let ty = match get_variable_type_name(reg, scope_path, name) {
        Some(ty) => ty,
        None => {
            return Err(TranslateError::TypeUnresolved(name.to_owned()));
        },
    };
    let layout = match reg.types.structure_of(ty.as_str()) {
        Some(layout) => layout,
        None => {
            return Err(TranslateError::LayoutMissing(ty));
        },
    };
    let width: usize = layout.total_width;
    let all = pad_digits(width, digits);
    Ok(translate_recursive(&reg.types, layout, width, all.as_slice()))
}

/// The shape of a signal of the type `ty` that is `num_bits` wide, or the
/// name of the composite type whose layout is missing. An enumerated type is
/// a text; a composite has the shape of its layout; raw bits are a boolean
/// where the signal is one bit wide.
pub open spec fn info_of(t: TypeTable, ty: Seq<char>, num_bits: Option<u32>) -> Result<
    ShapeTree,
    Seq<char>,
> {
    match category_in(t, ty) {
        TypeCategory::Enum => Ok(ShapeTree::Text),
        TypeCategory::Struct => if t.structures.contains_key(ty) {
            Ok(shape(t, t.structures[ty], depth_of(t)))
        } else {
            Err(ty)
        },
        TypeCategory::Bits => if num_bits == Some(1u32) {
            Ok(ShapeTree::Bool)
        } else {
            Ok(ShapeTree::Bits)
        },
        _ => Ok(ShapeTree::Bits),
    }
}

/// The shape of the signal called `name` under the scope `scope_path`, which
/// is `num_bits` wide: see `info_of`.
pub fn variable_info(reg: &Registry, scope_path: &[String], name: &str, num_bits: Option<u32>) -> (r:
    Result<VariableInfo, TranslateError>)
    ensures
        match variable_type(*reg, texts(scope_path@), name@) {
            None => r matches Err(TranslateError::TypeUnresolved(n)) && n@ == name@,
            Some(ty) => match info_of(reg.types@, ty, num_bits) {
                Ok(shape) => r matches Ok(info) && info@ == shape,
                Err(missing) => r matches Err(TranslateError::LayoutMissing(n)) && n@ == missing,
            },
        },
{
    let ty = match get_variable_type_name(reg, scope_path, name) {
        Some(ty) => ty,
        None => {
            return Err(TranslateError::TypeUnresolved(name.to_owned()));
        },
    };
    match reg.types.category_of(ty.as_str()) {
        TypeCategory::Enum => Ok(VariableInfo::String),
        TypeCategory::Struct => match reg.types.structure_of(ty.as_str()) {
            Some(layout) => Ok(get_struct_fields_info(&reg.types, layout)),
            None => Err(TranslateError::LayoutMissing(ty)),
        },
        TypeCategory::Bits => {
            let one_bit = match num_bits {
                Some(n) => n == 1,
                None => false,
            };
            if one_bit {
                Ok(VariableInfo::Bool)
            } else {
                Ok(VariableInfo::Bits)
            }
        },
        _ => Ok(VariableInfo::Bits),
    }
}

/// The two answers about a composite signal agree: the tree that `translate`
/// decodes, whatever the digits, lists exactly the fields of the shape that
/// `variable_info` gives, by name, in order and with the same nesting.
pub proof fn lemma_translate_matches_info(
    t: TypeTable,
    ty: Seq<char>,
    digits: Seq<char>,
    num_bits: Option<u32>,
)
    requires
        category_in(t, ty) == TypeCategory::Struct,
        t.structures.contains_key(ty),
    ensures
        info_of(t, ty, num_bits) matches Ok(shape) && same_layout(
            decode(t, t.structures[ty], padded(t.structures[ty].total_width, digits), depth_of(t)),
            shape,
        ),
{
    lemma_decode_matches_shape(
        t,
        t.structures[ty],
        padded(t.structures[ty].total_width, digits),
        depth_of(t),
    );
}

} // verus!
