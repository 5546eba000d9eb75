use vstd::prelude::*;
use vstd::string::StringExecFns;
use crate::decimal::str_eq;

verus! {

/// The types an ABI document names.
#[derive(Debug, Clone, Copy, PartialEq, Eq, Structural)]
pub enum Type {
    Unit,
    U8,
    U16,
    U32,
    U64,
    Bool,
    Byte,
    B256,
    Array,
    Vector,
    String,
    Struct,
    Enum,
    Tuple,
    RawSlice,
}

/// The type a canonical name stands for; only these names are accepted.
pub open spec fn parse_type(s: Seq<char>) -> Option<Type> {
    if s == "()"@ {
        Some(Type::Unit)
    } else if s == "u8"@ {
        Some(Type::U8)
    } else if s == "u16"@ {
        Some(Type::U16)
    } else if s == "u32"@ {
        Some(Type::U32)
    } else if s == "u64"@ {
        Some(Type::U64)
    } else if s == "bool"@ {
        Some(Type::Bool)
    } else {
        None
    }
}

/// The name a type is shown by in messages.
pub open spec fn type_label(t: Type) -> Seq<char> {
    match t {
        Type::Unit => "Unit"@,
        Type::U8 => "U8"@,
        Type::U16 => "U16"@,
        Type::U32 => "U32"@,
        Type::U64 => "U64"@,
        Type::Bool => "Bool"@,
        Type::Byte => "Byte"@,
        Type::B256 => "B256"@,
        Type::Array => "Array"@,
        Type::Vector => "Vector"@,
        Type::String => "String"@,
        Type::Struct => "Struct"@,
        Type::Enum => "Enum"@,
        Type::Tuple => "Tuple"@,
        Type::RawSlice => "RawSlice"@,
    }
}

/// A type name that no supported type has.
#[derive(Debug, Clone, PartialEq, Eq)]
pub struct UnsupportedTypeName {
    pub name: String,
}

impl UnsupportedTypeName {
    /// `"<name> type is not supported."`
    pub fn message(&self) -> (r: String)
        ensures
            r@ == self.name@ + " type is not supported."@,
    {
        let mut m = self.name.clone();
        m.append(" type is not supported.");
        m
    }
}

impl Type {
    /// Reads a canonical type name: `()`, `u8`, `u16`, `u32`, `u64` or `bool`.
    pub fn from_str(s: &str) -> (r: Result<Type, UnsupportedTypeName>)
        ensures
            match parse_type(s@) {
                Some(t) => r == Ok::<Type, UnsupportedTypeName>(t),
                None => r matches Err(e) && e.name@ == s@,
            },
    {
        if str_eq(s, "()") {
            Ok(Type::Unit)
        } else if str_eq(s, "u8") {
            Ok(Type::U8)
        } else if str_eq(s, "u16") {
            Ok(Type::U16)
        } else if str_eq(s, "u32") {
            Ok(Type::U32)
        } else if str_eq(s, "u64") {
            Ok(Type::U64)
        } else if str_eq(s, "bool") {
            Ok(Type::Bool)
        } else {
            Err(UnsupportedTypeName { name: String::from_str(s) })
        }
    }

    /// The type of a parameter, read from the type name it declares.
    pub fn try_from(type_field: &String) -> (r: Result<Type, UnsupportedTypeName>)
        ensures
            match parse_type(type_field@) {
                Some(t) => r == Ok::<Type, UnsupportedTypeName>(t),
                None => r matches Err(e) && e.name@ == type_field@,
            },
    {
        Type::from_str(type_field.as_str())
    }

    /// The name the type is shown by in messages.
    pub fn label(&self) -> (r: &'static str)
        ensures
            r@ == type_label(*self),
    {
        match self {
            Type::Unit => "Unit",
            Type::U8 => "U8",
            Type::U16 => "U16",
            Type::U32 => "U32",
            Type::U64 => "U64",
            Type::Bool => "Bool",
            Type::Byte => "Byte",
            Type::B256 => "B256",
            Type::Array => "Array",
            Type::Vector => "Vector",
            Type::String => "String",
            Type::Struct => "Struct",
            Type::Enum => "Enum",
            Type::Tuple => "Tuple",
            Type::RawSlice => "RawSlice",
        }
    }
}

} // verus!
