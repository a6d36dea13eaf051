//! Type-directed glue generation for a flat, 32-bit linear-memory calling
//! convention: the type model, the wire codec of values, record serializer
//! plans, function prolog/epilog plans, declaration checks and module
//! assembly.

pub mod parsed_type;
pub mod ast;
pub mod wire;
pub mod record_codec;
pub mod fn_glue;
pub mod builder;
pub mod classify;
pub mod module;

pub use parsed_type::ParsedType;
pub use ast::{FnArgument, FnSignature, RecordType, RecordFields, RecordField, ExternFnType, ExternModType, FnType, SDKAst};
