use vstd::prelude::*;

verus! {

/// The closed set of types that can cross the ABI boundary.
#[derive(Debug, PartialEq, Eq)]
pub enum ParsedType {
    Boolean,
    I8,
    I16,
    I32,
    I64,
    U8,
    U16,
    U32,
    U64,
    F32,
    F64,
    /// Borrowed text.
    Utf8Str,
    /// Owned text.
    Utf8String,
    Vector(Box<ParsedType>),
    /// A reference to a record type declared under this name.
    Record(String),
}

/// Number of bytes a value of `t` occupies inline: inside a record's packed
/// layout, inside a vector's element buffer, or as a raw argument.
pub open spec fn wire_size(t: ParsedType) -> nat {
    match t {
        ParsedType::Boolean | ParsedType::I8 | ParsedType::U8 => 1,
        ParsedType::I16 | ParsedType::U16 => 2,
        ParsedType::I32 | ParsedType::U32 | ParsedType::F32 => 4,
        ParsedType::I64 | ParsedType::U64 | ParsedType::F64 => 8,
        ParsedType::Utf8Str | ParsedType::Utf8String | ParsedType::Vector(_) => 8,
        ParsedType::Record(_) => 4,
    }
}

pub open spec fn is_scalar(t: ParsedType) -> bool {
    match t {
        ParsedType::Utf8Str | ParsedType::Utf8String | ParsedType::Vector(_) | ParsedType::Record(_) => false,
        _ => true,
    }
}

pub open spec fn is_text(t: ParsedType) -> bool {
    t is Utf8Str || t is Utf8String
}

impl Clone for ParsedType {
    fn clone(&self) -> (r: Self)
        ensures
            r == *self,
        decreases self,
    {
        match self {
            ParsedType::Boolean => ParsedType::Boolean,
            ParsedType::I8 => ParsedType::I8,
            ParsedType::I16 => ParsedType::I16,
            ParsedType::I32 => ParsedType::I32,
            ParsedType::I64 => ParsedType::I64,
            ParsedType::U8 => ParsedType::U8,
            ParsedType::U16 => ParsedType::U16,
            ParsedType::U32 => ParsedType::U32,
            ParsedType::U64 => ParsedType::U64,
            ParsedType::F32 => ParsedType::F32,
            ParsedType::F64 => ParsedType::F64,
            ParsedType::Utf8Str => ParsedType::Utf8Str,
            ParsedType::Utf8String => ParsedType::Utf8String,
            ParsedType::Vector(inner) => ParsedType::Vector(Box::new((**inner).clone())),
            ParsedType::Record(name) => ParsedType::Record(name.clone()),
        }
    }
}

impl ParsedType {
    /// Inline byte width of a value of this type.
    pub fn wire_size(&self) -> (r: usize)
        ensures
            r as nat == wire_size(*self),
            1 <= r <= 8,
    {
        match self {
            ParsedType::Boolean | ParsedType::I8 | ParsedType::U8 => 1,
            ParsedType::I16 | ParsedType::U16 => 2,
            ParsedType::I32 | ParsedType::U32 | ParsedType::F32 => 4,
            ParsedType::I64 | ParsedType::U64 | ParsedType::F64 => 8,
            ParsedType::Utf8Str | ParsedType::Utf8String | ParsedType::Vector(_) => 8,
            ParsedType::Record(_) => 4,
        }
    }
}

} // verus!
