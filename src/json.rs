//! The parsed form of a JSON document, as the rule catalog is read from it.
use vstd::prelude::*;

verus! {

/// A JSON value. Numbers are kept only as far as the catalog reads them: a nonnegative
/// integer that fits in 64 bits, or some other number.
pub enum JsonValue {
    Null,
    Bool(bool),
    Unsigned(u64),
    OtherNumber,
    Str(String),
    Array(Vec<JsonValue>),
    /// The entries of an object, in document order, with distinct keys.
    Object(Vec<(String, JsonValue)>),
}

} // verus!
