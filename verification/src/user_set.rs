//! Sets of users with distinct fids, of the kinds this library has.
use crate::analyze_spam_entry::SetWithSpamEntries;
use crate::fid::Fid;
use crate::is_user::IsUser;
use crate::set_with_cast_data::SetWithCastData;
use crate::subset::UsersSubset;
use crate::user::UserStoreWithNativeUserValue;
use crate::user_collection::{fids_unique, has_fid, position_of_fid};
use crate::user_value::AnyNativeUserValue;
use crate::user_with_cast_data::UserWithCastData;
use crate::user_with_spam_data::UserWithSpamData;
use vstd::prelude::*;

verus! {

/// A set of users, each with its own fid, whose members each refer to a user.
pub trait UserSet<'a>: Sized {
    /// What the set hands out for each user.
    type Member: IsUser<'a>;

    /// Whether the set is well formed.
    spec fn set_wf(&self) -> bool;

    /// The users of the set, in order.
    spec fn members(&self) -> Seq<(Fid, Seq<AnyNativeUserValue>)>;

    /// No two users of a well formed set share a fid.
    proof fn lemma_members_fids_unique(&self)
        requires
            self.set_wf(),
        ensures
            fids_unique(self.members()),
    ;

    /// The number of users.
    fn user_count(&self) -> (r: usize)
        requires
            self.set_wf(),
        ensures
            r == self.members().len(),
    ;

    /// The member for the user with fid `fid`, if the set has one.
    fn user(&self, fid: usize) -> (r: Option<Self::Member>)
        requires
            self.set_wf(),
        ensures
            r is Some <==> has_fid(self.members(), Fid::spec_new(fid as u64)),
            r matches Some(u) ==> u.spec_user()@ == self.members()[position_of_fid(
                self.members(),
                Fid::spec_new(fid as u64),
            )],
    ;

    /// The members of the set, in order.
    fn into_members(self) -> (r: Vec<Self::Member>)
        requires
            self.set_wf(),
        ensures
            r@.len() == self.members().len(),
            forall|j: int| 0 <= j < r@.len() ==> (#[trigger] r@[j]).spec_user()@ == self.members()[j],
    ;
}

impl<'a> UserSet<'a> for UsersSubset<'a> {
    type Member = &'a UserStoreWithNativeUserValue;

    open spec fn set_wf(&self) -> bool {
        self.wf()
    }

    open spec fn members(&self) -> Seq<(Fid, Seq<AnyNativeUserValue>)> {
        self@
    }

    proof fn lemma_members_fids_unique(&self) {
        self.lemma_wf_fids_unique();
    }

    fn user_count(&self) -> (r: usize) {
        UsersSubset::user_count(self)
    }

    fn user(&self, fid: usize) -> (r: Option<&'a UserStoreWithNativeUserValue>) {
        UsersSubset::user(self, Fid::new(fid as u64))
    }

    fn into_members(self) -> (r: Vec<&'a UserStoreWithNativeUserValue>) {
        proof {
            self.lemma_view_users();
        }
        self.iter().clone()
    }
}

impl<'a> UserSet<'a> for SetWithSpamEntries<'a> {
    type Member = UserWithSpamData<'a>;

    open spec fn set_wf(&self) -> bool {
        self.wf()
    }

    open spec fn members(&self) -> Seq<(Fid, Seq<AnyNativeUserValue>)> {
        self@
    }

    proof fn lemma_members_fids_unique(&self) {
        self.lemma_wf();
    }

    fn user_count(&self) -> (r: usize) {
        SetWithSpamEntries::user_count(self)
    }

    fn user(&self, fid: usize) -> (r: Option<UserWithSpamData<'a>>) {
        SetWithSpamEntries::user(self, fid)
    }

    fn into_members(self) -> (r: Vec<UserWithSpamData<'a>>) {
        proof {
            self.lemma_view_users();
        }
        let ghost users = self.spec_users();
        let r = SetWithSpamEntries::into_iter(self);
        proof {
            assert forall|j: int| 0 <= j < r@.len() implies (#[trigger] r@[j]).spec_user()@
                == self.members()[j] by {
                UserWithSpamData::lemma_of(users[j]);
            }
        }
        r
    }
}

impl<'a> UserSet<'a> for SetWithCastData<'a> {
    type Member = UserWithCastData<'a>;

    open spec fn set_wf(&self) -> bool {
        self.wf()
    }

    open spec fn members(&self) -> Seq<(Fid, Seq<AnyNativeUserValue>)> {
        self@
    }

    proof fn lemma_members_fids_unique(&self) {
        self.lemma_wf();
    }

    fn user_count(&self) -> (r: usize) {
        SetWithCastData::user_count(self)
    }

    fn user(&self, fid: usize) -> (r: Option<UserWithCastData<'a>>) {
        SetWithCastData::user(self, fid)
    }

    fn into_members(self) -> (r: Vec<UserWithCastData<'a>>) {
        proof {
            self.lemma_wf();
        }
        SetWithCastData::into_iter(self)
    }
}

} // verus!
