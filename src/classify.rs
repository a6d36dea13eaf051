use vstd::prelude::*;
use crate::parsed_type::ParsedType;
use crate::builder::BuildError;

verus! {

/// A declared type as the parsing front end sees it.
#[derive(Debug, PartialEq)]
pub enum TypeDecl {
    /// A path type, by its last segment, with its generic arguments.
    Path { name: String, args: Vec<TypeDecl> },
    /// A shared reference without an explicit lifetime.
    Reference(Box<TypeDecl>),
    /// Any other type: tuples, arrays, trait objects, function pointers,
    /// references with lifetimes.
    Other,
}

/// The type that a path without generic arguments names: a primitive, owned
/// text, or else a record of that name.
pub open spec fn simple_path(name: Seq<char>, n: String) -> Option<ParsedType> {
    if name == "bool"@ {
        Some(ParsedType::Boolean)
    } else if name == "i8"@ {
        Some(ParsedType::I8)
    } else if name == "i16"@ {
        Some(ParsedType::I16)
    } else if name == "i32"@ {
        Some(ParsedType::I32)
    } else if name == "i64"@ {
        Some(ParsedType::I64)
    } else if name == "u8"@ {
        Some(ParsedType::U8)
    } else if name == "u16"@ {
        Some(ParsedType::U16)
    } else if name == "u32"@ {
        Some(ParsedType::U32)
    } else if name == "u64"@ {
        Some(ParsedType::U64)
    } else if name == "f32"@ {
        Some(ParsedType::F32)
    } else if name == "f64"@ {
        Some(ParsedType::F64)
    } else if name == "String"@ {
        Some(ParsedType::Utf8String)
    } else if name == "str"@ || name == "Vec"@ {
        None
    } else {
        Some(ParsedType::Record(n))
    }
}

/// The marshalable type a declared type maps to, if it has one.
pub open spec fn classification(t: TypeDecl) -> Option<ParsedType>
    decreases t,
{
    match t {
        TypeDecl::Path { name, args } => {
            if args@.len() == 0 {
                simple_path(name@, name)
            } else if name@ == "Vec"@ && args@.len() == 1 {
                match classification(args@[0]) {
                    Some(e) => Some(ParsedType::Vector(Box::new(e))),
                    None => None,
                }
            } else {
                None
            }
        },
        TypeDecl::Reference(inner) => match *inner {
            TypeDecl::Path { name, args } => if name@ == "str"@ && args@.len() == 0 {
                Some(ParsedType::Utf8Str)
            } else {
                None
            },
            _ => None,
        },
        TypeDecl::Other => None,
    }
}

fn is_named(name: &String, lit: &str) -> (r: bool)
    ensures
        r == (name@ == lit@),
{
    *name == lit.to_owned()
}

/// Maps a declared type to exactly one marshalable type, or fails with
/// `UnsupportedType`.
pub fn classify(t: &TypeDecl) -> (r: Result<ParsedType, BuildError>)
    ensures
        match classification(*t) {
            Some(p) => r == Ok::<ParsedType, BuildError>(p),
            None => r == Err::<ParsedType, BuildError>(BuildError::UnsupportedType),
        },
    decreases t,
{
    match t {
        TypeDecl::Path { name, args } => {
            if args.len() == 0 {
                let p = if is_named(name, "bool") {
                    ParsedType::Boolean
                } else if is_named(name, "i8") {
                    ParsedType::I8
                } else if is_named(name, "i16") {
                    ParsedType::I16
                } else if is_named(name, "i32") {
                    ParsedType::I32
                } else if is_named(name, "i64") {
                    ParsedType::I64
                } else if is_named(name, "u8") {
                    ParsedType::U8
                } else if is_named(name, "u16") {
                    ParsedType::U16
                } else if is_named(name, "u32") {
                    ParsedType::U32
                } else if is_named(name, "u64") {
                    ParsedType::U64
                } else if is_named(name, "f32") {
                    ParsedType::F32
                } else if is_named(name, "f64") {
                    ParsedType::F64
                } else if is_named(name, "String") {
                    ParsedType::Utf8String
                } else if is_named(name, "str") || is_named(name, "Vec") {
                    return Err(BuildError::UnsupportedType);
                } else {
                    ParsedType::Record(name.clone())
                };
                Ok(p)
            } else if is_named(name, "Vec") && args.len() == 1 {
                match classify(&args[0]) {
                    Ok(e) => Ok(ParsedType::Vector(Box::new(e))),
                    Err(e) => Err(e),
                }
            } else {
                Err(BuildError::UnsupportedType)
            }
        },
        TypeDecl::Reference(inner) => match &**inner {
            TypeDecl::Path { name, args } => if is_named(name, "str") && args.len() == 0 {
                Ok(ParsedType::Utf8Str)
            } else {
                Err(BuildError::UnsupportedType)
            },
            _ => Err(BuildError::UnsupportedType),
        },
        TypeDecl::Other => Err(BuildError::UnsupportedType),
    }
}

} // verus!
