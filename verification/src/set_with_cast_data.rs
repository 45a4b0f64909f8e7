//! Sets of users that hold cast data.
use crate::analyze_spam_entry::lemma_users_kept_filter;
use crate::cast_type::CastType;
use crate::dated::Dated;
use crate::fid::Fid;
use crate::subset::UsersSubset;
use crate::user::UserStoreWithNativeUserValue;
use crate::user_collection::{fids_unique, has_fid, position_of_fid, users_kept, UserCollection};
use crate::user_value::AnyNativeUserValue;
use crate::is_user::IsUser;
use crate::user_set::UserSet;
use crate::user_with_cast_data::{casts_of, has_cast_data, TryFromUser, UserWithCastData};
use vstd::prelude::*;

verus! {

/// Error of a set that would be empty.
#[derive(Debug, Clone, Copy, PartialEq, Eq, Structural, Hash)]
#[non_exhaustive]
pub enum SetWithCastDataError {
    /// No user would be in the set.
    EmptySetError,
}

/// Holding a cast, as a predicate on users.
pub open spec fn cast_data_pred() -> spec_fn((Fid, Seq<AnyNativeUserValue>)) -> bool {
    |u: (Fid, Seq<AnyNativeUserValue>)| has_cast_data(u)
}

/// The number of casts of all of `users`.
pub open spec fn total_casts_of(users: Seq<(Fid, Seq<AnyNativeUserValue>)>) -> int
    decreases users.len(),
{
    if users.len() == 0 {
        0
    } else {
        total_casts_of(users.drop_last()) + casts_of(users.last().1).len()
    }
}

/// Whether `user` holds at least one cast.
fn user_has_cast_data(user: &UserStoreWithNativeUserValue) -> (b: bool)
    ensures
        b == has_cast_data(user@),
{
    user.has::<Dated<CastType>>()
}

/// A set of users that each hold at least one cast; never empty.
pub struct SetWithCastData<'a> {
    set: UsersSubset<'a>,
}

impl<'a> View for SetWithCastData<'a> {
    type V = Seq<(Fid, Seq<AnyNativeUserValue>)>;

    closed spec fn view(&self) -> Seq<(Fid, Seq<AnyNativeUserValue>)> {
        self.set@
    }
}

impl<'a> SetWithCastData<'a> {
    /// The subset is well formed, not empty, and every user holds a cast.
    pub closed spec fn wf(self) -> bool {
        &&& self.set.wf()
        &&& self.set@.len() > 0
        &&& forall|i: int| 0 <= i < self.set@.len() ==> has_cast_data(#[trigger] self.set@[i])
    }

    /// The users of the set, in order.
    pub closed spec fn spec_users(self) -> Seq<&'a UserStoreWithNativeUserValue> {
        self.set.spec_users()
    }

    /// What a well formed set holds.
    pub proof fn lemma_wf(self)
        requires
            self.wf(),
        ensures
            self@.len() > 0,
            self@.len() == self.spec_users().len(),
            forall|i: int| 0 <= i < self@.len() ==> has_cast_data(#[trigger] self@[i]),
            forall|i: int| 0 <= i < self@.len() ==> #[trigger] self@[i] == self.spec_users()[i]@,
            crate::user_collection::fids_unique(self@),
    {
        self.set.lemma_view_users();
        self.set.lemma_wf_fids_unique();
    }

    /// The set of all the users of `collection` that hold at least one cast, in their order;
    /// an error where no user does.
    pub fn try_from(collection: &'a UserCollection) -> (r: Result<Self, SetWithCastDataError>)
        requires
            collection.wf(),
        ensures
            r is Ok <==> exists|i: int|
                0 <= i < collection@.len() && has_cast_data(#[trigger] collection@[i]),
            r matches Ok(s) ==> s.wf() && s@ == collection@.filter(cast_data_pred()),
            r matches Err(e) ==> e == SetWithCastDataError::EmptySetError,
    {
        let set = UsersSubset::from_filter(collection, user_has_cast_data);
        let ghost f = collection@.filter(cast_data_pred());
        proof {
            collection.lemma_view_users();
            let keep = choose|keep: Seq<bool>|
                {
                    &&& keep.len() == collection@.len()
                    &&& forall|i: int|
                        0 <= i < keep.len() ==> call_ensures(
                            user_has_cast_data,
                            (&collection.spec_users()[i],),
                            #[trigger] keep[i],
                        )
                    &&& set@ == users_kept(collection@, keep)
                };
            assert forall|i: int| 0 <= i < collection@.len() implies keep[i] == cast_data_pred()(
                #[trigger] collection@[i],
            ) by {
                assert(call_ensures(user_has_cast_data, (&collection.spec_users()[i],), keep[i]));
            }
            lemma_users_kept_filter(collection@, keep, cast_data_pred());
            broadcast use vstd::seq_lib::group_filter_ensures;
            assert forall|i: int| 0 <= i < f.len() implies has_cast_data(#[trigger] f[i]) by {
                assert(cast_data_pred()(f[i]));
            }
            if exists|i: int| 0 <= i < collection@.len() && has_cast_data(#[trigger] collection@[i]) {
                let i = choose|i: int|
                    0 <= i < collection@.len() && has_cast_data(#[trigger] collection@[i]);
                assert(cast_data_pred()(collection@[i]));
                assert(f.contains(collection@[i]));
            }
            if f.len() > 0 {
                assert(f.contains(f[0]));
                collection@.lemma_filter_contains_rev(cast_data_pred(), f[0]);
                assert(cast_data_pred()(f[0]));
            }
        }
        if set.user_count() != 0 {
            Ok(SetWithCastData { set })
        } else {
            Err(SetWithCastDataError::EmptySetError)
        }
    }

    /// The number of users in the set.
    pub fn user_count(&self) -> (r: usize)
        requires
            self.wf(),
        ensures
            r == self@.len(),
    {
        self.set.user_count()
    }

    /// The user with fid `fid`, if the set has one.
    pub fn user(&self, fid: usize) -> (r: Option<UserWithCastData<'a>>)
        requires
            self.wf(),
        ensures
            r is Some <==> has_fid(self@, Fid::spec_new(fid as u64)),
            r matches Some(u) ==> u.spec_user()@ == self@[position_of_fid(
                self@,
                Fid::spec_new(fid as u64),
            )],
    {
        proof {
            self.lemma_wf();
        }
        let f = Fid::new(fid as u64);
        match self.set.user(f) {
            Some(user) => {
                proof {
                    assert(has_cast_data(self@[position_of_fid(self@, f)]));
                }
                match UserWithCastData::try_from(user) {
                    Ok(u) => Some(u),
                    Err(_) => None,
                }
            },
            None => None,
        }
    }

    /// The users of the set as cast users, in order.
    pub fn into_iter(self) -> (r: Vec<UserWithCastData<'a>>)
        requires
            self.wf(),
        ensures
            r@.len() == self@.len(),
            forall|j: int| 0 <= j < r@.len() ==> (#[trigger] r@[j]).spec_user() == self.spec_users()[j],
    {
        proof {
            self.lemma_wf();
        }
        let users = self.set.iter();
        let n = users.len();
        let mut result: Vec<UserWithCastData<'a>> = Vec::new();
        let mut i: usize = 0;
        while i < n
            invariant
                n == users@.len(),
                users@ == self.spec_users(),
                self@.len() == n,
                forall|q: int| 0 <= q < n ==> #[trigger] self@[q] == users@[q]@,
                forall|q: int| 0 <= q < n ==> has_cast_data(#[trigger] self@[q]),
                i <= n,
                result@.len() == i,
                forall|j: int| 0 <= j < i ==> (#[trigger] result@[j]).spec_user() == users@[j],
            decreases n - i,
        {
            assert(has_cast_data(self@[i as int]));
            match UserWithCastData::try_from(users[i]) {
                Ok(u) => result.push(u),
                Err(_) => {
                    assert(false);
                },
            }
            i = i + 1;
        }
        result
    }

    /// The number of casts of all users of the set, where it fits in a `usize`.
    pub fn total_casts(&self) -> (r: Option<usize>)
        requires
            self.wf(),
        ensures
            total_casts_of(self@) <= usize::MAX ==> r == Some(total_casts_of(self@) as usize),
            total_casts_of(self@) > usize::MAX ==> r is None,
    {
        proof {
            self.lemma_wf();
        }
        let users = self.set.iter();
        let n = users.len();
        let mut total: usize = 0;
        let mut i: usize = 0;
        while i < n
            invariant
                n == users@.len(),
                self@.len() == n,
                forall|q: int| 0 <= q < n ==> #[trigger] self@[q] == users@[q]@,
                i <= n,
                total == total_casts_of(self@.take(i as int)),
            decreases n - i,
        {
            proof {
                assert(self@.take(i as int + 1).drop_last() =~= self@.take(i as int));
            }
            let count = users[i].user_values_of_kind::<Dated<CastType>>().len();
            match total.checked_add(count) {
                Some(t) => {
                    total = t;
                },
                None => {
                    proof {
                        lemma_total_casts_monotone(self@, i as int + 1);
                    }
                    return None;
                },
            }
            i = i + 1;
        }
        proof {
            assert(self@.take(n as int) =~= self@);
        }
        Some(total)
    }
}

/// Make a set of one kind from a set of another kind.
pub trait TryFromUserSet<'a, T: UserSet<'a>>: Sized {
    type Error;

    fn try_from_set(value: T) -> Result<Self, Self::Error>
        requires
            value.set_wf(),
    ;
}

impl<'a, T: UserSet<'a>> TryFromUserSet<'a, T> for SetWithCastData<'a> {
    type Error = SetWithCastDataError;

    /// The set of the users of `value` that hold a cast, in their order; an error where none
    /// does.
    fn try_from_set(value: T) -> (r: Result<Self, SetWithCastDataError>)
        ensures
            r is Ok <==> exists|i: int|
                0 <= i < value.members().len() && has_cast_data(#[trigger] value.members()[i]),
            r matches Ok(s) ==> s.wf() && s@ == value.members().filter(cast_data_pred()),
            r matches Err(e) ==> e == SetWithCastDataError::EmptySetError,
    {
        let ghost members = value.members();
        proof {
            value.lemma_members_fids_unique();
        }
        let all = value.into_members();
        let mut set = UsersSubset::new();
        let ghost mut keep: Seq<bool> = Seq::empty();
        for member in it: all
            invariant
                it.seq().len() == members.len(),
                forall|j: int| 0 <= j < members.len() ==> (#[trigger] it.seq()[j]).spec_user()@
                    == members[j],
                fids_unique(members),
                set.wf(),
                keep.len() == it.index(),
                forall|j: int| 0 <= j < it.index() ==> keep[j] == has_cast_data(
                    #[trigger] members[j],
                ),
                set@ == users_kept(members.take(it.index() as int), keep),
                forall|j: int| 0 <= j < set@.len() ==> has_cast_data(#[trigger] set@[j]),
        {
            let ghost k = it.index() as int;
            let ghost m = members[k];
            let ghost old_keep = keep;
            assert(member.spec_user()@ == m);
            proof {
                assert(members.take(k + 1).drop_last() =~= members.take(k));
                assert(members.take(k + 1).last() == m);
            }
            match <UserWithCastData<'a> as TryFromUser<'a, T::Member>>::try_from_user(member) {
                Ok(u) => {
                    proof {
                        crate::subset::lemma_kept_lacks_next_fid(members, keep, k);
                    }
                    let ghost before = set@;
                    set.add_user(u);
                    proof {
                        keep = keep.push(true);
                        assert(keep.drop_last() =~= old_keep);
                        assert(set@ == before.push(m));
                        assert forall|j: int| 0 <= j < set@.len() implies has_cast_data(
                            #[trigger] set@[j],
                        ) by {
                            if j < before.len() {
                                assert(set@[j] == before[j]);
                            }
                        }
                    }
                },
                Err(_) => {
                    proof {
                        keep = keep.push(false);
                        assert(keep.drop_last() =~= old_keep);
                    }
                },
            }
        }
        proof {
            assert(members.take(members.len() as int) =~= members);
            lemma_users_kept_filter(members, keep, cast_data_pred());
            let f = members.filter(cast_data_pred());
            broadcast use vstd::seq_lib::group_filter_ensures;
            if exists|i: int| 0 <= i < members.len() && has_cast_data(#[trigger] members[i]) {
                let i = choose|i: int| 0 <= i < members.len() && has_cast_data(#[trigger] members[i]);
                assert(cast_data_pred()(members[i]));
                assert(f.contains(members[i]));
            }
            if f.len() > 0 {
                assert(f.contains(f[0]));
                members.lemma_filter_contains_rev(cast_data_pred(), f[0]);
                assert(cast_data_pred()(f[0]));
            }
        }
        if set.user_count() == 0 {
            Err(SetWithCastDataError::EmptySetError)
        } else {
            Ok(SetWithCastData { set })
        }
    }
}

/// The casts of a prefix of the users are no more than those of all of them.
pub proof fn lemma_total_casts_monotone(users: Seq<(Fid, Seq<AnyNativeUserValue>)>, k: int)
    requires
        0 <= k <= users.len(),
    ensures
        total_casts_of(users.take(k)) <= total_casts_of(users),
    decreases users.len() - k,
{
    if k < users.len() {
        lemma_total_casts_monotone(users, k + 1);
        assert(users.take(k + 1).drop_last() =~= users.take(k));
    } else {
        assert(users.take(k) =~= users);
    }
}

} // verus!
