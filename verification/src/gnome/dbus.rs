//! Values as they come over the bus.
use vstd::prelude::*;

use crate::by_name::ByName;
use crate::float::Double;
use crate::gnome::monitors::Props;
use crate::text;

pub mod laws;

verus! {

/// A value of one of the types that are read here.
#[derive(Debug)]
pub enum DbusValue {
    Text(String),
    I32(i32),
    U32(u32),
    F64(Double),
    Bool(bool),
    Struct(Vec<DbusValue>),
    Array(Vec<DbusValue>),
    Dict(Vec<DbusEntry>),
    /// A value of another type.
    Other,
}

/// An entry of a dictionary. The number stands for the value where it is only carried.
#[derive(Debug)]
pub struct DbusEntry {
    pub name: String,
    pub value: DbusValue,
    pub number: u64,
}

/// Why a value cannot be read.
#[derive(Clone, Copy, Debug, PartialEq, Eq, Structural)]
pub enum DecodeError {
    ExpectedText,
    ExpectedI32,
    ExpectedU32,
    ExpectedF64,
    ExpectedBool,
    ExpectedStruct,
    ExpectedArray,
    ExpectedDict,
    SpecFormat,
    ModeFormat,
    MonitorFormat,
    LogicalFormat,
}

/// The value under the name; a later entry replaces an earlier one.
pub open spec fn entry_value(s: Seq<DbusEntry>, name: Seq<char>) -> Option<DbusValue>
    decreases s.len(),
{
    if s.len() == 0 {
        None
    } else if s.last().name@ == name {
        Some(s.last().value)
    } else {
        entry_value(s.drop_last(), name)
    }
}

/// The properties that a dictionary carries.
pub open spec fn carried(s: Seq<DbusEntry>) -> Map<Seq<char>, u64>
    decreases s.len(),
{
    if s.len() == 0 {
        Map::empty()
    } else {
        carried(s.drop_last()).insert(s.last().name@, s.last().number)
    }
}

/// The value under the name.
pub fn lookup<'a>(entries: &'a Vec<DbusEntry>, name: &str) -> (r: Option<&'a DbusValue>)
    ensures
        r is Some == entry_value(entries@, name@) is Some,
        r matches Some(v) ==> entry_value(entries@, name@) == Some(*v),
{
    let mut i: usize = entries.len();
    assert(entries@.take(i as int) == entries@);
    while i > 0
        invariant
            i <= entries@.len(),
            entry_value(entries@, name@) == entry_value(entries@.take(i as int), name@),
        decreases i,
    {
        assert(entries@.take(i as int).drop_last() == entries@.take(i - 1));
        i = i - 1;
        if text::same_str(entries[i].name.as_str(), name) {
            return Some(&entries[i].value);
        }
    }
    None
}

/// The properties that a dictionary carries.
pub fn props_of(entries: &Vec<DbusEntry>) -> (r: Props)
    ensures
        r@ == carried(entries@),
{
    let mut r: Props = ByName::new();
    let mut i: usize = 0;
    while i < entries.len()
        invariant
            i <= entries@.len(),
            r@ == carried(entries@.take(i as int)),
        decreases entries.len() - i,
    {
        r.set(entries[i].name.as_str(), entries[i].number);
        i = i + 1;
        assert(entries@.take(i as int).drop_last() == entries@.take(i - 1));
    }
    assert(entries@.take(entries@.len() as int) == entries@);
    r
}

impl DbusValue {
    pub fn to_text(&self) -> (r: Result<String, DecodeError>)
        ensures
            match self {
                DbusValue::Text(s) => r matches Ok(t) && t@ == s@,
                _ => r == Err::<String, DecodeError>(DecodeError::ExpectedText),
            },
    {
        match self {
            DbusValue::Text(s) => Ok(s.clone()),
            _ => Err(DecodeError::ExpectedText),
        }
    }

    pub fn to_i32(&self) -> (r: Result<i32, DecodeError>)
        ensures
            r == match self {
                DbusValue::I32(n) => Ok(*n),
                _ => Err(DecodeError::ExpectedI32),
            },
    {
        match self {
            DbusValue::I32(n) => Ok(*n),
            _ => Err(DecodeError::ExpectedI32),
        }
    }

    pub fn to_u32(&self) -> (r: Result<u32, DecodeError>)
        ensures
            r == match self {
                DbusValue::U32(n) => Ok(*n),
                _ => Err(DecodeError::ExpectedU32),
            },
    {
        match self {
            DbusValue::U32(n) => Ok(*n),
            _ => Err(DecodeError::ExpectedU32),
        }
    }

    pub fn to_double(&self) -> (r: Result<Double, DecodeError>)
        ensures
            r == match self {
                DbusValue::F64(x) => Ok(*x),
                _ => Err(DecodeError::ExpectedF64),
            },
    {
        match self {
            DbusValue::F64(x) => Ok(*x),
            _ => Err(DecodeError::ExpectedF64),
        }
    }

    pub fn to_bool(&self) -> (r: Result<bool, DecodeError>)
        ensures
            r == match self {
                DbusValue::Bool(b) => Ok(*b),
                _ => Err(DecodeError::ExpectedBool),
            },
    {
        match self {
            DbusValue::Bool(b) => Ok(*b),
            _ => Err(DecodeError::ExpectedBool),
        }
    }

    pub fn fields(&self) -> (r: Result<&Vec<DbusValue>, DecodeError>)
        ensures
            match self {
                DbusValue::Struct(v) => r matches Ok(w) && *w == *v,
                _ => r == Err::<&Vec<DbusValue>, DecodeError>(DecodeError::ExpectedStruct),
            },
    {
        match self {
            DbusValue::Struct(v) => Ok(v),
            _ => Err(DecodeError::ExpectedStruct),
        }
    }

    pub fn items(&self) -> (r: Result<&Vec<DbusValue>, DecodeError>)
        ensures
            match self {
                DbusValue::Array(v) => r matches Ok(w) && *w == *v,
                _ => r == Err::<&Vec<DbusValue>, DecodeError>(DecodeError::ExpectedArray),
            },
    {
        match self {
            DbusValue::Array(v) => Ok(v),
            _ => Err(DecodeError::ExpectedArray),
        }
    }

    pub fn entries(&self) -> (r: Result<&Vec<DbusEntry>, DecodeError>)
        ensures
            match self {
                DbusValue::Dict(v) => r matches Ok(w) && *w == *v,
                _ => r == Err::<&Vec<DbusEntry>, DecodeError>(DecodeError::ExpectedDict),
            },
    {
        match self {
            DbusValue::Dict(v) => Ok(v),
            _ => Err(DecodeError::ExpectedDict),
        }
    }
}

} // verus!
