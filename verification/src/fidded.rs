//! A value tagged with the fid of the user it belongs to.
use crate::fid::Fid;
use crate::user_value::{HasTag, NativeUserValue};
use vstd::prelude::*;
use vstd::std_specs::convert::FromSpecImpl;

verus! {

/// A value together with the fid of its user.
#[derive(PartialEq, Eq, Structural, Hash, Debug, Clone, Copy)]
pub struct Fidded<T> {
    inner: T,
    fid: Fid,
}

impl<T> Fidded<T> {
    pub closed spec fn spec_fid(self) -> Fid {
        self.fid
    }

    pub closed spec fn spec_unfid(self) -> T {
        self.inner
    }

    /// Tag `inner` with `fid`.
    pub fn new(inner: T, fid: Fid) -> (r: Self)
        ensures
            r.spec_unfid() == inner,
            r.spec_fid() == fid,
    {
        Fidded { inner, fid }
    }

    /// The value without its fid.
    pub fn unfid(self) -> (r: T)
        ensures
            r == self.spec_unfid(),
    {
        self.inner
    }

    pub fn fid(&self) -> (r: Fid)
        ensures
            r == self.spec_fid(),
    {
        self.fid
    }
}

impl<T> From<(T, Fid)> for Fidded<T> {
    fn from(value: (T, Fid)) -> (r: Self) {
        Fidded { inner: value.0, fid: value.1 }
    }
}

impl<T> FromSpecImpl<(T, Fid)> for Fidded<T> {
    open spec fn obeys_from_spec() -> bool {
        true
    }

    closed spec fn from_spec(v: (T, Fid)) -> Self {
        Fidded { inner: v.0, fid: v.1 }
    }
}

/// What the `From<(T, Fid)>` impl of [`Fidded`] builds.
pub proof fn lemma_fidded_from_pair<T>(v: (T, Fid))
    ensures
        <Fidded<T> as vstd::std_specs::convert::FromSpec<(T, Fid)>>::from_spec(v).spec_unfid() == v.0,
        <Fidded<T> as vstd::std_specs::convert::FromSpec<(T, Fid)>>::from_spec(v).spec_fid() == v.1,
{
}

impl<T: NativeUserValue> HasTag<Fid, T> for Fidded<T> {
    open spec fn spec_tag(&self) -> Fid {
        self.spec_fid()
    }

    open spec fn spec_inner(&self) -> T {
        self.spec_unfid()
    }

    fn tag(&self) -> (r: Fid) {
        self.fid
    }

    fn untag(self) -> (r: (Fid, T)) {
        (self.fid, self.inner)
    }
}

} // verus!
