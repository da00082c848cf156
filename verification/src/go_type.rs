//! The closed set of source-dialect types, and the mapping from spelled
//! type names to it.

use vstd::prelude::*;
use crate::error::Error;
use crate::text::str_eq;

verus! {

/// A type expression of the source dialect. `Map` keys are restricted to
/// primitive kinds; translating a map with any other key fails.
#[derive(Debug, PartialEq)]
pub enum GoType {
    StringType,
    IntType,
    UnsignedIntType,
    FloatType,
    BoolType,
    ByteType,
    UserDefined(String),
    ArrayType(Box<GoType>),
    MapType(Box<GoType>, Box<GoType>),
    InterfaceType,
    PointerType(Box<GoType>),
    TimeType,
    TimestampMillisecondsType,
    TimestampSecondsType,
    JsonRawType,
}

/// The primitive scalar kinds: the only kinds allowed as map keys.
pub open spec fn is_primitive(t: GoType) -> bool {
    t is StringType || t is IntType || t is UnsignedIntType || t is FloatType
        || t is BoolType || t is ByteType
}

/// The recognized primitive type spellings and what each maps to.
pub open spec fn primitive_of(s: Seq<char>) -> Option<GoType> {
    if s == "string"@ {
        Some(GoType::StringType)
    } else if s == "int"@ || s == "int32"@ || s == "int64"@ {
        Some(GoType::IntType)
    } else if s == "uint"@ || s == "uint32"@ || s == "uint64"@ {
        Some(GoType::UnsignedIntType)
    } else if s == "float"@ || s == "float32"@ || s == "float64"@ {
        Some(GoType::FloatType)
    } else if s == "bool"@ {
        Some(GoType::BoolType)
    } else if s == "byte"@ {
        Some(GoType::ByteType)
    } else {
        None
    }
}

/// The two recognized package-qualified identifiers and their types.
pub open spec fn package_ident_of(s: Seq<char>) -> Option<GoType> {
    if s == "time.Time"@ {
        Some(GoType::TimeType)
    } else if s == "json.RawMessage"@ {
        Some(GoType::JsonRawType)
    } else {
        None
    }
}

/// Maps a primitive type spelling to its kind; any spelling outside the
/// recognized set is a fatal error naming that spelling.
pub fn parse_go_type_primitive(t: &str) -> (r: Result<GoType, Error>)
    ensures
        primitive_of(t@) matches Some(g) ==> (r matches Ok(g2) && g2 == g),
        primitive_of(t@) is None ==> (r matches Err(e) && e matches Error::UnsupportedGoPrimitive(
            s,
        ) && s@ == t@),
{
    if str_eq(t, "string") {
        Ok(GoType::StringType)
    } else if str_eq(t, "int") || str_eq(t, "int32") || str_eq(t, "int64") {
        Ok(GoType::IntType)
    } else if str_eq(t, "uint") || str_eq(t, "uint32") || str_eq(t, "uint64") {
        Ok(GoType::UnsignedIntType)
    } else if str_eq(t, "float") || str_eq(t, "float32") || str_eq(t, "float64") {
        Ok(GoType::FloatType)
    } else if str_eq(t, "bool") {
        Ok(GoType::BoolType)
    } else if str_eq(t, "byte") {
        Ok(GoType::ByteType)
    } else {
        Err(Error::UnsupportedGoPrimitive(t.to_owned()))
    }
}

/// Maps a bare identifier to a type. Two special spellings become epoch
/// timestamp wrappers; everything else is a user-defined named type.
pub fn parse_go_ident(t: &str) -> (r: Result<GoType, Error>)
    ensures
        r matches Ok(g),
        t@ == "MilliSecondsEpochTime"@ ==> (r matches Ok(g) && g is TimestampMillisecondsType),
        t@ == "SecondsEpochTime"@ ==> (r matches Ok(g) && g is TimestampSecondsType),
        (t@ != "MilliSecondsEpochTime"@ && t@ != "SecondsEpochTime"@) ==> (r matches Ok(g)
            && g matches GoType::UserDefined(u) && u@ == t@),
{
    proof {
        broadcast use vstd::string::group_string_axioms;

        reveal_strlit("MilliSecondsEpochTime");
        reveal_strlit("SecondsEpochTime");
        assert("MilliSecondsEpochTime"@.len() == 21);
        assert("SecondsEpochTime"@.len() == 16);
    }
    if str_eq(t, "MilliSecondsEpochTime") {
        Ok(GoType::TimestampMillisecondsType)
    } else if str_eq(t, "SecondsEpochTime") {
        Ok(GoType::TimestampSecondsType)
    } else {
        Ok(GoType::UserDefined(t.to_owned()))
    }
}

/// Maps a package-qualified identifier to a type. Exactly two are known;
/// any other is a fatal, unsupported-input error naming the identifier.
pub fn parse_go_package_ident(t: &str) -> (r: Result<GoType, Error>)
    ensures
        package_ident_of(t@) matches Some(g) ==> (r matches Ok(g2) && g2 == g),
        package_ident_of(t@) is None ==> (r matches Err(e) && e
            matches Error::UnsupportedPackageIdent(s) && s@ == t@),
{
    if str_eq(t, "time.Time") {
        Ok(GoType::TimeType)
    } else if str_eq(t, "json.RawMessage") {
        Ok(GoType::JsonRawType)
    } else {
        Err(Error::UnsupportedPackageIdent(t.to_owned()))
    }
}

} // verus!
