//! The kinds of casts a user can make.
use crate::date::Date;
use vstd::prelude::*;
use vstd::string::StrSliceExecFns;

verus! {

/// The type of a cast.
#[derive(Debug, PartialEq, Eq, Structural, Copy, Clone, Hash)]
#[non_exhaustive]
pub enum CastType {
    CAST,
}

/// Error of a string that names no cast type.
#[derive(Debug, PartialEq, Eq, Structural, Clone, Copy, Hash)]
pub enum InvalidCastInputError {
    InvalidInput,
}

/// The cast type that `s` names, if any: only `"CAST"` does.
pub open spec fn cast_type_of(s: Seq<char>) -> Result<CastType, InvalidCastInputError> {
    if s == seq!['C', 'A', 'S', 'T'] {
        Ok(CastType::CAST)
    } else {
        Err(InvalidCastInputError::InvalidInput)
    }
}

impl CastType {
    /// The cast type that `value` names, if any.
    pub fn from_name(value: &str) -> (r: Result<CastType, InvalidCastInputError>)
        ensures
            r == cast_type_of(value@),
    {
        let n = value.unicode_len();
        if n == 4 && value.get_char(0) == 'C' && value.get_char(1) == 'A' && value.get_char(2)
            == 'S' && value.get_char(3) == 'T' {
            assert(value@ =~= seq!['C', 'A', 'S', 'T']);
            Ok(CastType::CAST)
        } else {
            Err(InvalidCastInputError::InvalidInput)
        }
    }
}

impl<'a> TryFrom<&'a str> for CastType {
    type Error = InvalidCastInputError;

    fn try_from(value: &'a str) -> (r: Result<Self, InvalidCastInputError>)
        ensures
            r == cast_type_of(value@),
    {
        CastType::from_name(value)
    }
}

impl<'a> vstd::std_specs::convert::TryFromSpecImpl<&'a str> for CastType {
    open spec fn obeys_try_from_spec() -> bool {
        true
    }

    open spec fn try_from_spec(v: &'a str) -> Result<CastType, InvalidCastInputError> {
        cast_type_of(v@)
    }
}

/// A cast of a user: its fid, its date and its type.
#[derive(Debug, PartialEq, Eq, Structural, Clone, Copy, Hash)]
pub struct CastMeta {
    cast_fid: u64,
    cast_date: Date,
    cast_type: CastType,
}

impl CastMeta {
    pub closed spec fn spec_fid(self) -> u64 {
        self.cast_fid
    }

    pub closed spec fn spec_cast_date(self) -> Date {
        self.cast_date
    }

    pub closed spec fn spec_cast_type(self) -> CastType {
        self.cast_type
    }

    /// The cast of fid `cast_fid` at `cast_date` of type `cast_type`.
    pub fn new(cast_date: Date, cast_type: CastType, cast_fid: u64) -> (r: Self)
        ensures
            r.spec_fid() == cast_fid,
            r.spec_cast_date() == cast_date,
            r.spec_cast_type() == cast_type,
    {
        CastMeta { cast_fid, cast_date, cast_type }
    }

    /// The fid of the user that cast.
    pub fn fid(&self) -> (r: u64)
        ensures
            r == self.spec_fid(),
    {
        self.cast_fid
    }

    /// The date of the cast.
    pub fn cast_date(&self) -> (r: Date)
        ensures
            r == self.spec_cast_date(),
    {
        self.cast_date
    }
}

} // verus!
