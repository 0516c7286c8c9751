//! The typed key-value codec: scalar and variable-length values keyed by
//! 32-bit identifiers, and a length-framed map of them.
use vstd::prelude::*;

pub mod error;
pub mod ext;
pub mod map;
pub mod values;

pub use crate::format::map::TypedMap;

use crate::format::values::Sha1;

verus! {

/// Identifier of one field of a map.
#[derive(Debug, Clone, Copy, PartialEq, Eq, Hash, Structural)]
pub struct Key(pub u32);

/// One typed value of a map.
#[derive(Debug, Clone, PartialEq)]
pub enum Value {
    U8(u8),
    U16(u16),
    U32(u32),
    U64(u64),
    ShortString(String),
    LongString(String),
    Binary(Vec<u8>),
    Bool(bool),
    /// An IEEE-754 single precision number, held as its bit pattern.
    Float(u32),
    Sha1(Sha1),
}

/// The mathematical content of a [`Value`]: strings as their characters,
/// byte buffers and digests as their bytes.
pub enum ValueView {
    U8(u8),
    U16(u16),
    U32(u32),
    U64(u64),
    ShortString(Seq<char>),
    LongString(Seq<char>),
    Binary(Seq<u8>),
    Bool(bool),
    Float(u32),
    Sha1(Seq<u8>),
}

impl View for Value {
    type V = ValueView;

    open spec fn view(&self) -> ValueView {
        match self {
            Value::U8(x) => ValueView::U8(*x),
            Value::U16(x) => ValueView::U16(*x),
            Value::U32(x) => ValueView::U32(*x),
            Value::U64(x) => ValueView::U64(*x),
            Value::ShortString(s) => ValueView::ShortString(s@),
            Value::LongString(s) => ValueView::LongString(s@),
            Value::Binary(b) => ValueView::Binary(b@),
            Value::Bool(b) => ValueView::Bool(*b),
            Value::Float(bits) => ValueView::Float(*bits),
            Value::Sha1(h) => ValueView::Sha1(h.0@),
        }
    }
}

impl From<u8> for Value {
    fn from(x: u8) -> (r: Value) {
        Value::U8(x)
    }
}

impl vstd::std_specs::convert::FromSpecImpl<u8> for Value {
    open spec fn obeys_from_spec() -> bool {
        true
    }

    open spec fn from_spec(x: u8) -> Value {
        Value::U8(x)
    }
}

impl From<u16> for Value {
    fn from(x: u16) -> (r: Value) {
        Value::U16(x)
    }
}

impl vstd::std_specs::convert::FromSpecImpl<u16> for Value {
    open spec fn obeys_from_spec() -> bool {
        true
    }

    open spec fn from_spec(x: u16) -> Value {
        Value::U16(x)
    }
}

impl From<u32> for Value {
    fn from(x: u32) -> (r: Value) {
        Value::U32(x)
    }
}

impl vstd::std_specs::convert::FromSpecImpl<u32> for Value {
    open spec fn obeys_from_spec() -> bool {
        true
    }

    open spec fn from_spec(x: u32) -> Value {
        Value::U32(x)
    }
}

impl From<u64> for Value {
    fn from(x: u64) -> (r: Value) {
        Value::U64(x)
    }
}

impl vstd::std_specs::convert::FromSpecImpl<u64> for Value {
    open spec fn obeys_from_spec() -> bool {
        true
    }

    open spec fn from_spec(x: u64) -> Value {
        Value::U64(x)
    }
}

impl From<String> for Value {
    fn from(x: String) -> (r: Value) {
        Value::LongString(x)
    }
}

impl vstd::std_specs::convert::FromSpecImpl<String> for Value {
    open spec fn obeys_from_spec() -> bool {
        true
    }

    open spec fn from_spec(x: String) -> Value {
        Value::LongString(x)
    }
}

impl From<Vec<u8>> for Value {
    fn from(x: Vec<u8>) -> (r: Value) {
        Value::Binary(x)
    }
}

impl vstd::std_specs::convert::FromSpecImpl<Vec<u8>> for Value {
    open spec fn obeys_from_spec() -> bool {
        true
    }

    open spec fn from_spec(x: Vec<u8>) -> Value {
        Value::Binary(x)
    }
}

impl From<bool> for Value {
    fn from(x: bool) -> (r: Value) {
        Value::Bool(x)
    }
}

impl vstd::std_specs::convert::FromSpecImpl<bool> for Value {
    open spec fn obeys_from_spec() -> bool {
        true
    }

    open spec fn from_spec(x: bool) -> Value {
        Value::Bool(x)
    }
}

impl From<Sha1> for Value {
    fn from(x: Sha1) -> (r: Value) {
        Value::Sha1(x)
    }
}

impl vstd::std_specs::convert::FromSpecImpl<Sha1> for Value {
    open spec fn obeys_from_spec() -> bool {
        true
    }

    open spec fn from_spec(x: Sha1) -> Value {
        Value::Sha1(x)
    }
}

/// The type tag written in front of a value: the one table that both the
/// encoder and the decoder go by.
pub open spec fn tag_of(v: ValueView) -> u8 {
    match v {
        ValueView::U8(_) => 0,
        ValueView::U16(_) => 1,
        ValueView::U32(_) => 2,
        ValueView::U64(_) => 3,
        ValueView::ShortString(_) => 4,
        ValueView::LongString(_) => 5,
        ValueView::Binary(_) => 6,
        ValueView::Bool(_) => 7,
        ValueView::Float(_) => 8,
        ValueView::Sha1(_) => 9,
    }
}

impl Value {
    /// The type tag of this value.
    pub fn data_type(&self) -> (r: u8)
        ensures
            r == tag_of(self@),
            r <= 9,
    {
        match self {
            Value::U8(_) => 0,
            Value::U16(_) => 1,
            Value::U32(_) => 2,
            Value::U64(_) => 3,
            Value::ShortString(_) => 4,
            Value::LongString(_) => 5,
            Value::Binary(_) => 6,
            Value::Bool(_) => 7,
            Value::Float(_) => 8,
            Value::Sha1(_) => 9,
        }
    }
}

} // verus!
