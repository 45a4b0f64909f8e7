//! The farcaster id of a user.
use vstd::prelude::*;
use vstd::std_specs::convert::FromSpecImpl;
use vstd::std_specs::convert::TryFromSpecImpl;

verus! {

/// A farcaster id (fid), the number that identifies a farcaster user.
#[derive(Debug, Clone, Copy, PartialEq, Eq, Structural, Hash, PartialOrd)]
pub struct Fid(u64);

impl View for Fid {
    type V = u64;

    closed spec fn view(&self) -> u64 {
        self.0
    }
}

/// Two fids are equal exactly when their numbers are.
pub broadcast proof fn lemma_fid_view_injective(a: Fid, b: Fid)
    ensures
        #![trigger a@, b@]
        (a@ == b@) <==> a == b,
{
}

impl Fid {
    /// The fid with number `value`.
    pub closed spec fn spec_new(value: u64) -> Fid {
        Fid(value)
    }

    pub broadcast proof fn lemma_spec_new(value: u64)
        ensures
            #[trigger] Fid::spec_new(value)@ == value,
    {
    }

    /// The fid with number `value`.
    pub fn new(value: u64) -> (r: Fid)
        ensures
            r@ == value,
            r == Fid::spec_new(value),
    {
        Fid(value)
    }

    /// The number of the fid.
    pub fn value(&self) -> (r: u64)
        ensures
            r == self@,
    {
        self.0
    }
}

impl From<u64> for Fid {
    fn from(value: u64) -> (r: Self)
        ensures
            r@ == value,
    {
        Fid(value)
    }
}

impl FromSpecImpl<u64> for Fid {
    open spec fn obeys_from_spec() -> bool {
        true
    }

    closed spec fn from_spec(v: u64) -> Fid {
        Fid(v)
    }
}

impl From<usize> for Fid {
    fn from(value: usize) -> (r: Self)
        ensures
            r@ == value as u64,
    {
        Fid(value as u64)
    }
}

impl FromSpecImpl<usize> for Fid {
    open spec fn obeys_from_spec() -> bool {
        true
    }

    closed spec fn from_spec(v: usize) -> Fid {
        Fid(v as u64)
    }
}

impl From<u32> for Fid {
    fn from(value: u32) -> (r: Self)
        ensures
            r@ == value as u64,
    {
        Fid(value as u64)
    }
}

impl FromSpecImpl<u32> for Fid {
    open spec fn obeys_from_spec() -> bool {
        true
    }

    closed spec fn from_spec(v: u32) -> Fid {
        Fid(v as u64)
    }
}

impl TryFrom<i32> for Fid {
    type Error = core::num::TryFromIntError;

    fn try_from(value: i32) -> (r: Result<Self, core::num::TryFromIntError>)
        ensures
            r is Ok <==> value >= 0,
            r matches Ok(f) ==> f@ == value as u64,
    {
        match u64::try_from(value) {
            Ok(v) => Ok(Fid(v)),
            Err(e) => Err(e),
        }
    }
}

impl TryFromSpecImpl<i32> for Fid {
    open spec fn obeys_try_from_spec() -> bool {
        true
    }

    closed spec fn try_from_spec(v: i32) -> Result<Fid, core::num::TryFromIntError> {
        if v >= 0 {
            Ok(Fid(v as u64))
        } else {
            Err(arbitrary())
        }
    }
}

impl From<Fid> for usize {
    fn from(value: Fid) -> (r: usize)
        ensures
            r == value@ as usize,
    {
        value.0 as usize
    }
}

impl FromSpecImpl<Fid> for usize {
    open spec fn obeys_from_spec() -> bool {
        true
    }

    closed spec fn from_spec(v: Fid) -> usize {
        v.0 as usize
    }
}

impl From<Fid> for u64 {
    fn from(value: Fid) -> (r: u64)
        ensures
            r == value@,
    {
        value.0
    }
}

impl FromSpecImpl<Fid> for u64 {
    open spec fn obeys_from_spec() -> bool {
        true
    }

    closed spec fn from_spec(v: Fid) -> u64 {
        v.0
    }
}

} // verus!
