use vstd::prelude::*;
use crate::parsed_type::ParsedType;

verus! {

#[derive(Clone, Debug, PartialEq)]
pub struct FnArgument {
    pub name: String,
    pub ty: ParsedType,
}

/// A function signature. At most one output type is supported; the output is
/// kept as a sequence of zero or one elements so that multi-value returns can
/// be added without changing the model.
#[derive(Clone, Debug, PartialEq)]
pub struct FnSignature {
    pub name: String,
    pub arguments: Vec<FnArgument>,
    pub output_types: Vec<ParsedType>,
}

#[derive(Clone, Debug, PartialEq)]
pub struct RecordType {
    pub name: String,
    pub fields: RecordFields,
}

/// Named and tuple-like records hold fields of the same shape; a field has a
/// name exactly when the record is `Named`.
#[derive(Clone, Debug, PartialEq)]
pub enum RecordFields {
    Named(Vec<RecordField>),
    Unnamed(Vec<RecordField>),
    Unit,
}

#[derive(Clone, Debug, PartialEq)]
pub struct RecordField {
    /// Fields of tuple-like records have no name.
    pub name: Option<String>,
    pub ty: ParsedType,
}

/// An imported function: only its signature is known.
#[derive(Clone, Debug, PartialEq)]
pub struct ExternFnType {
    pub link_name: Option<String>,
    pub signature: FnSignature,
}

/// A group of imported functions under one namespace.
#[derive(Clone, Debug, PartialEq)]
pub struct ExternModType {
    pub namespace: String,
    pub imports: Vec<ExternFnType>,
}

/// An exported function.
#[derive(Clone, Debug, PartialEq)]
pub struct FnType {
    pub signature: FnSignature,
}

/// One declared item of a compilation unit.
#[derive(Clone, Debug, PartialEq)]
pub enum SDKAst {
    Function(FnType),
    ExternMod(ExternModType),
    Record(RecordType),
}

/// The fields of a record, in declared (and wire) order.
pub open spec fn record_fields(rf: RecordFields) -> Seq<RecordField> {
    match rf {
        RecordFields::Named(fs) => fs@,
        RecordFields::Unnamed(fs) => fs@,
        RecordFields::Unit => Seq::empty(),
    }
}

/// The field types of a record, in declared (and wire) order.
pub open spec fn field_types(rf: RecordFields) -> Seq<ParsedType> {
    record_fields(rf).map_values(|f: RecordField| f.ty)
}

impl RecordFields {
    /// The fields in declared order; empty for a unit record.
    pub fn fields(&self) -> (r: &[RecordField])
        ensures
            r@ == record_fields(*self),
    {
        match self {
            RecordFields::Named(fs) => fs.as_slice(),
            RecordFields::Unnamed(fs) => fs.as_slice(),
            RecordFields::Unit => &[],
        }
    }
}

impl FnSignature {
    /// Builds a signature from a name, arguments in call order and an optional
    /// output type, which becomes a sequence of zero or one output types.
    pub fn new(name: String, arguments: Vec<FnArgument>, output_type: Option<ParsedType>) -> (r: Self)
        ensures
            r.name == name,
            r.arguments == arguments,
            r.output_types@ == (match output_type {
                Some(t) => seq![t],
                None => Seq::<ParsedType>::empty(),
            }),
    {
        let output_types = match output_type {
            Some(t) => vec![t],
            None => Vec::new(),
        };
        FnSignature { name, arguments, output_types }
    }
}

} // verus!
