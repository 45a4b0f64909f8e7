//! Types that refer to the data of one user.
use crate::fid::Fid;
use crate::user::UserStoreWithNativeUserValue;
use vstd::prelude::*;

verus! {

/// A type that references user data.
pub trait IsUser<'a> {
    /// The user referred to.
    spec fn spec_user(&self) -> &'a UserStoreWithNativeUserValue;

    fn fid(&self) -> (r: Fid)
        ensures
            r == self.spec_user()@.0,
    ;

    fn user(&self) -> (r: &'a UserStoreWithNativeUserValue)
        ensures
            r == self.spec_user(),
    ;
}

impl<'a> IsUser<'a> for &'a UserStoreWithNativeUserValue {
    open spec fn spec_user(&self) -> &'a UserStoreWithNativeUserValue {
        *self
    }

    fn fid(&self) -> (r: Fid) {
        (*self).fid()
    }

    fn user(&self) -> (r: &'a UserStoreWithNativeUserValue) {
        *self
    }
}

impl<'a, 'b, T: IsUser<'a>> IsUser<'a> for &'b T {
    open spec fn spec_user(&self) -> &'a UserStoreWithNativeUserValue {
        (**self).spec_user()
    }

    fn fid(&self) -> (r: Fid) {
        (**self).fid()
    }

    fn user(&self) -> (r: &'a UserStoreWithNativeUserValue) {
        (**self).user()
    }
}

} // verus!
