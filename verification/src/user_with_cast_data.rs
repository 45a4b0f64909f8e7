//! Users that hold cast data.
use crate::cast_type::CastType;
use crate::dated::Dated;
use crate::fid::Fid;
use crate::is_user::IsUser;
use crate::user::UserStoreWithNativeUserValue;
use crate::user_value::{values_of_kind, AnyNativeUserValue};
use vstd::prelude::*;

verus! {

/// The casts of a user, in the order they were added.
pub open spec fn casts_of(values: Seq<AnyNativeUserValue>) -> Seq<Dated<CastType>> {
    values_of_kind::<AnyNativeUserValue, Dated<CastType>>(values)
}

/// Whether a user holds at least one cast.
pub open spec fn has_cast_data(user: (Fid, Seq<AnyNativeUserValue>)) -> bool {
    casts_of(user.1).len() > 0
}

/// Create a value from something that refers to a user.
pub trait TryFromUser<'a, T: IsUser<'a>>: Sized {
    type Error;

    fn try_from_user(value: T) -> Result<Self, Self::Error>;
}

/// Error of a user without cast data.
#[derive(Debug, Clone, Copy, PartialEq, Eq, Structural, Hash)]
pub struct NoCastDataError;

/// A reference to a user that holds at least one cast.
#[derive(Debug, PartialEq)]
pub struct UserWithCastData<'a> {
    user: &'a UserStoreWithNativeUserValue,
}

impl<'a> UserWithCastData<'a> {
    #[verifier::type_invariant]
    pub closed spec fn has_casts(self) -> bool {
        has_cast_data(self.user@)
    }

    /// The user referred to.
    pub closed spec fn spec_user(self) -> &'a UserStoreWithNativeUserValue {
        self.user
    }

    /// The cast user for `value`, if it holds a cast.
    pub fn try_from(value: &'a UserStoreWithNativeUserValue) -> (r: Result<Self, NoCastDataError>)
        ensures
            r is Ok <==> has_cast_data(value@),
            r matches Ok(u) ==> u.spec_user() == value,
    {
        if value.has::<Dated<CastType>>() {
            Ok(UserWithCastData { user: value })
        } else {
            Err(NoCastDataError)
        }
    }

    /// The number of casts of the user; at least one.
    pub fn cast_count(&self) -> (r: usize)
        ensures
            r == casts_of(self.spec_user()@.1).len(),
            r > 0,
    {
        proof {
            use_type_invariant(self);
        }
        self.user.user_values_of_kind::<Dated<CastType>>().len()
    }
}

impl<'a> Clone for UserWithCastData<'a> {
    fn clone(&self) -> (r: Self)
        ensures
            r == *self,
    {
        proof {
            use_type_invariant(self);
        }
        UserWithCastData { user: self.user }
    }
}

impl<'a, T: IsUser<'a>> TryFromUser<'a, T> for UserWithCastData<'a> {
    type Error = NoCastDataError;

    /// The cast user for the user that `value` refers to, if it holds a cast.
    fn try_from_user(value: T) -> (r: Result<Self, NoCastDataError>)
        ensures
            r is Ok <==> has_cast_data(value.spec_user()@),
            r matches Ok(u) ==> u.spec_user() == value.spec_user(),
    {
        let user = value.user();
        if user.has::<Dated<CastType>>() {
            Ok(UserWithCastData { user })
        } else {
            Err(NoCastDataError)
        }
    }
}

impl<'a> IsUser<'a> for UserWithCastData<'a> {
    open spec fn spec_user(&self) -> &'a UserStoreWithNativeUserValue {
        UserWithCastData::spec_user(*self)
    }

    fn fid(&self) -> (r: Fid) {
        self.user.fid()
    }

    fn user(&self) -> (r: &'a UserStoreWithNativeUserValue) {
        self.user
    }
}

} // verus!
