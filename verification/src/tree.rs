//! What the decoder and the shape projector hand back: a tree of named
//! fields with values, and a tree of named fields with kinds.

use vstd::prelude::*;

verus! {

/// How a decoded value is written.
#[derive(Debug, PartialEq, Eq)]
pub enum ValueRepr {
    /// Raw bits: the width and the digits, most significant first.
    Bits(u64, String),
    /// A symbolic name.
    String(String),
    /// A composite; the fields are in `subfields`.
    Struct,
    /// No value could be read for this field.
    NotPresent,
}

/// How far a decoded value can be relied on.
#[derive(Debug, Clone, Copy, PartialEq, Eq, Structural)]
pub enum ValueKind {
    Normal,
    Undef,
    Error,
}

/// A decoded field with its name.
#[derive(Debug, PartialEq, Eq)]
pub struct SubFieldTranslationResult {
    pub name: String,
    pub result: TranslationResult,
}

/// A decoded value: its own representation and, for a composite, its fields
/// in declaration order.
#[derive(Debug, PartialEq, Eq)]
pub struct TranslationResult {
    pub val: ValueRepr,
    pub subfields: Vec<SubFieldTranslationResult>,
    pub kind: ValueKind,
}

/// The shape of a value: what a decode of it will hold, without the bits.
#[derive(Debug, PartialEq, Eq)]
pub enum VariableInfo {
    Compound { subfields: Vec<(String, VariableInfo)> },
    Bits,
    Bool,
    String,
}

/// Whether a signal is worth decoding.
#[derive(Debug, Clone, Copy, PartialEq, Eq, Structural)]
pub enum TranslationPreference {
    Prefer,
    Yes,
    No,
}

/// Model of a `ValueRepr`.
pub ghost enum ReprModel {
    Bits(u64, Seq<char>),
    Text(Seq<char>),
    Struct,
    NotPresent,
}

/// Model of a `TranslationResult`: a value and its named fields.
pub ghost struct FieldTree {
    pub val: ReprModel,
    pub subfields: Seq<(Seq<char>, FieldTree)>,
    pub kind: ValueKind,
}

/// Model of a `VariableInfo`.
pub ghost enum ShapeTree {
    Compound(Seq<(Seq<char>, ShapeTree)>),
    Bits,
    Bool,
    Text,
}

impl View for ValueRepr {
    type V = ReprModel;

    open spec fn view(&self) -> ReprModel {
        match self {
            ValueRepr::Bits(width, digits) => ReprModel::Bits(*width, digits@),
            ValueRepr::String(text) => ReprModel::Text(text@),
            ValueRepr::Struct => ReprModel::Struct,
            ValueRepr::NotPresent => ReprModel::NotPresent,
        }
    }
}

impl View for SubFieldTranslationResult {
    type V = (Seq<char>, FieldTree);

    open spec fn view(&self) -> (Seq<char>, FieldTree)
        decreases self,
    {
        (self.name@, self.result@)
    }
}

impl View for TranslationResult {
    type V = FieldTree;

    open spec fn view(&self) -> FieldTree
        decreases self,
    {
        FieldTree { val: self.val@, subfields: field_models(self.subfields@), kind: self.kind }
    }
}

/// The models of decoded fields, in order.
pub open spec fn field_models(fields: Seq<SubFieldTranslationResult>) -> Seq<(Seq<char>, FieldTree)>
    decreases fields,
{
    if fields.len() == 0 {
        Seq::empty()
    } else {
        field_models(fields.drop_last()).push(fields.last()@)
    }
}

impl View for VariableInfo {
    type V = ShapeTree;

    open spec fn view(&self) -> ShapeTree
        decreases self,
    {
        match self {
            VariableInfo::Compound { subfields } => ShapeTree::Compound(shape_models(subfields@)),
            VariableInfo::Bits => ShapeTree::Bits,
            VariableInfo::Bool => ShapeTree::Bool,
            VariableInfo::String => ShapeTree::Text,
        }
    }
}

/// The models of named shapes, in order.
pub open spec fn shape_models(fields: Seq<(String, VariableInfo)>) -> Seq<(Seq<char>, ShapeTree)>
    decreases fields,
{
    if fields.len() == 0 {
        Seq::empty()
    } else {
        shape_models(fields.drop_last()).push((fields.last().0@, fields.last().1@))
    }
}

/// One more decoded field adds its model at the end.
pub proof fn lemma_field_models_push(fields: Seq<SubFieldTranslationResult>, last: SubFieldTranslationResult)
    ensures
        field_models(fields.push(last)) == field_models(fields).push(last@),
{
    assert(fields.push(last).drop_last() =~= fields);
}

/// One more named shape adds its model at the end.
pub proof fn lemma_shape_models_push(fields: Seq<(String, VariableInfo)>, last: (String, VariableInfo))
    ensures
        shape_models(fields.push(last)) == shape_models(fields).push((last.0@, last.1@)),
{
    assert(fields.push(last).drop_last() =~= fields);
}

/// A leaf that holds raw bits.
pub fn bits_leaf(width: u64, digits: String) -> (r: TranslationResult)
    ensures
        r@ == bits_tree(width, digits@),
{
    let r = TranslationResult {
        val: ValueRepr::Bits(width, digits),
        subfields: Vec::new(),
        kind: ValueKind::Normal,
    };
    r
}

/// Model of a raw-bits leaf.
pub open spec fn bits_tree(width: u64, digits: Seq<char>) -> FieldTree {
    FieldTree { val: ReprModel::Bits(width, digits), subfields: Seq::empty(), kind: ValueKind::Normal }
}

} // verus!
