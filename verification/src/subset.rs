//! A subset of the users of a collection, held by reference.
use crate::fid::Fid;
use crate::is_user::IsUser;
use crate::user::UserStoreWithNativeUserValue;
use crate::user_collection::{
    fids_unique, has_fid, position_of_fid, users_kept, UserCollection,
};
use crate::user_value::AnyNativeUserValue;
use std::collections::HashMap;
use vstd::prelude::*;

verus! {

broadcast use {vstd::std_specs::hash::group_hash_axioms, crate::fid::lemma_fid_view_injective};

/// `users` with `user` in place of the user with its fid, or with `user` at the end when
/// there is none.
pub open spec fn insert_user(
    users: Seq<(Fid, Seq<AnyNativeUserValue>)>,
    user: (Fid, Seq<AnyNativeUserValue>),
) -> Seq<(Fid, Seq<AnyNativeUserValue>)> {
    if has_fid(users, user.0) {
        users.update(position_of_fid(users, user.0), user)
    } else {
        users.push(user)
    }
}

/// References to some users, each with its own fid.
#[derive(Clone, Debug)]
pub struct UsersSubset<'a> {
    index: HashMap<u64, usize>,
    users: Vec<&'a UserStoreWithNativeUserValue>,
}

impl<'a> View for UsersSubset<'a> {
    type V = Seq<(Fid, Seq<AnyNativeUserValue>)>;

    /// The users of the subset, in order.
    closed spec fn view(&self) -> Seq<(Fid, Seq<AnyNativeUserValue>)> {
        self.users@.map_values(|u: &UserStoreWithNativeUserValue| u@)
    }
}

impl<'a> UsersSubset<'a> {
    /// The users of the subset, in order.
    pub closed spec fn spec_users(self) -> Seq<&'a UserStoreWithNativeUserValue> {
        self.users@
    }

    /// The view of the subset is the view of each of its users.
    pub proof fn lemma_view_users(self)
        ensures
            self@.len() == self.spec_users().len(),
            forall|i: int| 0 <= i < self@.len() ==> #[trigger] self@[i] == self.spec_users()[i]@,
    {
    }

    /// The index finds each user by its fid.
    pub closed spec fn wf(self) -> bool {
        &&& forall|k: u64| #[trigger]
            self.index@.contains_key(k) ==> self.index@[k] < self.users@.len()
                && self.users@[self.index@[k] as int].spec_fid()@ == k
        &&& forall|i: int|
            0 <= i < self.users@.len() ==> self.index@.contains_key(
                #[trigger] self.users@[i].spec_fid()@,
            ) && self.index@[self.users@[i].spec_fid()@] == i
    }

    pub proof fn lemma_wf_fids_unique(self)
        requires
            self.wf(),
        ensures
            fids_unique(self@),
    {
        assert forall|i: int, j: int|
            0 <= i < self@.len() && 0 <= j < self@.len() && i != j implies #[trigger] self@[i].0
            != #[trigger] self@[j].0 by {
            assert(self.users@[i]@ == self@[i]);
            assert(self.users@[j]@ == self@[j]);
            let fi = self.users@[i].spec_fid();
            let fj = self.users@[j].spec_fid();
            assert(self.index@.contains_key(fi@));
            assert(self.index@.contains_key(fj@));
            if fi == fj {
                assert(fi@ == fj@);
            }
        }
    }

    /// The users of the subset by the number of their fid.
    pub fn into_map(self) -> (r: HashMap<u64, &'a UserStoreWithNativeUserValue>)
        requires
            self.wf(),
        ensures
            forall|k: u64| #[trigger] r@.contains_key(k) <==> has_fid(self@, Fid::spec_new(k)),
            forall|k: u64|
                #[trigger] r@.contains_key(k) ==> r@[k]@ == self@[position_of_fid(
                    self@,
                    Fid::spec_new(k),
                )],
    {
        proof {
            self.lemma_wf_fids_unique();
        }
        let n = self.users.len();
        let mut result: HashMap<u64, &'a UserStoreWithNativeUserValue> = HashMap::new();
        let mut i: usize = 0;
        while i < n
            invariant
                n == self@.len(),
                n == self.users@.len(),
                forall|j: int| 0 <= j < n ==> #[trigger] self@[j] == self.users@[j]@,
                fids_unique(self@),
                i <= n,
                forall|k: u64| #[trigger]
                    result@.contains_key(k) <==> exists|j: int| 0 <= j < i && self@[j].0@ == k,
                forall|j: int|
                    0 <= j < i ==> result@.contains_key(#[trigger] self@[j].0@) && result@[self@[j].0@]@
                        == self@[j],
            decreases n - i,
        {
            let user: &'a UserStoreWithNativeUserValue = self.users[i];
            let key = user.fid().value();
            assert(self@[i as int] == user@);
            result.insert(key, user);
            proof {
                assert forall|j: int| 0 <= j < i implies self@[j].0@ != key by {
                    assert(self@[j].0 != self@[i as int].0);
                }
                assert forall|k: u64| #[trigger]
                    result@.contains_key(k) <==> exists|j: int| 0 <= j < i + 1 && self@[j].0@ == k by {
                    if k == key {
                        assert(self@[i as int].0@ == k);
                    }
                }
            }
            i = i + 1;
        }
        proof {
            assert forall|k: u64| #[trigger] result@.contains_key(k) <==> has_fid(self@, Fid::spec_new(k)) by {
                Fid::lemma_spec_new(k);
                if result@.contains_key(k) {
                    let j = choose|j: int| 0 <= j < n && self@[j].0@ == k;
                    assert(self@[j].0 == Fid::spec_new(k));
                }
                if has_fid(self@, Fid::spec_new(k)) {
                    let j = choose|j: int| 0 <= j < n && #[trigger] self@[j].0 == Fid::spec_new(k);
                    assert(self@[j].0@ == k);
                }
            }
            assert forall|k: u64| #[trigger] result@.contains_key(k) implies result@[k]@ == self@[position_of_fid(self@, Fid::spec_new(k))] by {
                Fid::lemma_spec_new(k);
                let p = position_of_fid(self@, Fid::spec_new(k));
                assert(self@[p].0@ == k);
            }
        }
        result
    }

    /// An empty subset.
    pub fn new() -> (r: Self)
        ensures
            r.wf(),
            r@.len() == 0,
    {
        let r = UsersSubset { index: HashMap::new(), users: Vec::new() };
        assert(r@ =~= Seq::empty());
        r
    }

    /// The position of the user with fid `fid`, if there is one.
    fn position(&self, fid: Fid) -> (r: Option<usize>)
        requires
            self.wf(),
        ensures
            r is Some <==> has_fid(self@, fid),
            r matches Some(i) ==> i < self@.len() && self@[i as int].0 == fid && i
                == position_of_fid(self@, fid),
    {
        proof {
            self.lemma_wf_fids_unique();
        }
        match self.index.get(&fid.value()) {
            Some(i) => {
                let i = *i;
                assert(self.index@.contains_key(fid@));
                assert(self.users@[i as int]@ == self@[i as int]);
                assert(self@[i as int].0@ == fid@);
                assert(has_fid(self@, fid));
                let ghost p = position_of_fid(self@, fid);
                assert(self@[p].0 == fid);
                Some(i)
            },
            None => {
                assert forall|j: int| 0 <= j < self@.len() implies #[trigger] self@[j].0 != fid by {
                    assert(self.users@[j]@ == self@[j]);
                    assert(self.index@.contains_key(self.users@[j].spec_fid()@));
                    if self@[j].0 == fid {
                        assert(self.users@[j].spec_fid()@ == fid@);
                    }
                }
                None
            },
        }
    }

    /// Add `user` at the end; no user of the subset may have its fid.
    fn push_new(&mut self, user: &'a UserStoreWithNativeUserValue)
        requires
            old(self).wf(),
            !has_fid(old(self)@, user@.0),
        ensures
            final(self).wf(),
            final(self)@ == old(self)@.push(user@),
            final(self).spec_users() == old(self).spec_users().push(user),
    {
        let ghost old_users = self.users@;
        let fid = user.fid();
        let n = self.users.len();
        self.index.insert(fid.value(), n);
        self.users.push(user);
        assert(self@ =~= old(self)@.push(user@));
        assert forall|i: int| 0 <= i < n implies #[trigger] self.users@[i].spec_fid()@ != fid@ by {
            assert(self.users@[i] == old_users[i]);
            assert(old_users[i]@ == old(self)@[i]);
            assert(old(self)@[i].0 != fid);
        }
        assert forall|k: u64| #[trigger] self.index@.contains_key(k) implies self.index@[k]
            < self.users@.len() && self.users@[self.index@[k] as int].spec_fid()@ == k by {
            if k != fid@ {
                assert(old(self).index@.contains_key(k));
                assert(self.users@[self.index@[k] as int] == old_users[self.index@[k] as int]);
            }
        }
        assert forall|i: int| 0 <= i < self.users@.len() implies self.index@.contains_key(
            #[trigger] self.users@[i].spec_fid()@,
        ) && self.index@[self.users@[i].spec_fid()@] == i by {
            if i < n {
                assert(self.users@[i] == old_users[i]);
                assert(old(self).index@.contains_key(old_users[i].spec_fid()@));
            }
        }
    }

    /// The subset of the users of `users` for which `filter` returns true, in their order.
    pub fn from_filter<F: Fn(&UserStoreWithNativeUserValue) -> bool>(
        users: &'a UserCollection,
        filter: F,
    ) -> (r: Self)
        requires
            users.wf(),
            forall|u: &UserStoreWithNativeUserValue| #[trigger] filter.requires((u,)),
        ensures
            r.wf(),
            exists|keep: Seq<bool>|
                {
                    &&& keep.len() == users@.len()
                    &&& forall|i: int|
                        0 <= i < keep.len() ==> filter.ensures(
                            (&users.spec_users()[i],),
                            #[trigger] keep[i],
                        )
                    &&& r@ == users_kept(users@, keep)
                },
    {
        proof {
            users.lemma_wf_fids_unique();
            users.lemma_view_users();
        }
        let all = users.iter();
        let n = all.len();
        let mut result = UsersSubset::new();
        let ghost mut keep: Seq<bool> = Seq::empty();
        let mut i: usize = 0;
        while i < n
            invariant
                n == all@.len(),
                all@ == users.spec_users(),
                users@.len() == n,
                forall|j: int| 0 <= j < n ==> #[trigger] users@[j] == all@[j]@,
                i <= n,
                fids_unique(users@),
                result.wf(),
                forall|u: &UserStoreWithNativeUserValue| #[trigger] filter.requires((u,)),
                keep.len() == i,
                forall|j: int| 0 <= j < i ==> filter.ensures((&all@[j],), #[trigger] keep[j]),
                result@ == users_kept(users@.take(i as int), keep),
            decreases n - i,
        {
            let user = &all[i];
            let b = filter(user);
            proof {
                let old_keep = keep;
                keep = keep.push(b);
                assert(users@.take(i + 1).drop_last() =~= users@.take(i as int));
                assert(keep.drop_last() =~= old_keep);
                assert(users@.take(i + 1).last() == user@);
            }
            if b {
                proof {
                    lemma_kept_lacks_next_fid(users@, keep.drop_last(), i as int);
                }
                result.push_new(user);
            }
            i = i + 1;
        }
        proof {
            assert(users@.take(n as int) =~= users@);
        }
        result
    }

    /// Keep only the users for which `filter` returns true; they keep their order.
    pub fn filter<F: Fn(&UserStoreWithNativeUserValue) -> bool>(&mut self, filter: F)
        requires
            old(self).wf(),
            forall|u: &UserStoreWithNativeUserValue| #[trigger] filter.requires((u,)),
        ensures
            final(self).wf(),
            exists|keep: Seq<bool>|
                {
                    &&& keep.len() == old(self)@.len()
                    &&& forall|i: int|
                        0 <= i < keep.len() ==> filter.ensures(
                            (old(self).spec_users()[i],),
                            #[trigger] keep[i],
                        )
                    &&& final(self)@ == users_kept(old(self)@, keep)
                },
    {
        let r = self.filtered(filter);
        *self = r;
    }

    /// A new subset of the users for which `filter` returns true, in their order.
    pub fn filtered<F: Fn(&UserStoreWithNativeUserValue) -> bool>(&self, filter: F) -> (r: Self)
        requires
            self.wf(),
            forall|u: &UserStoreWithNativeUserValue| #[trigger] filter.requires((u,)),
        ensures
            r.wf(),
            exists|keep: Seq<bool>|
                {
                    &&& keep.len() == self@.len()
                    &&& forall|i: int|
                        0 <= i < keep.len() ==> filter.ensures(
                            (self.spec_users()[i],),
                            #[trigger] keep[i],
                        )
                    &&& r@ == users_kept(self@, keep)
                },
    {
        proof {
            self.lemma_wf_fids_unique();
        }
        let n = self.users.len();
        let mut result = UsersSubset::new();
        let ghost mut keep: Seq<bool> = Seq::empty();
        let mut i: usize = 0;
        while i < n
            invariant
                n == self.users@.len(),
                i <= n,
                fids_unique(self@),
                result.wf(),
                forall|u: &UserStoreWithNativeUserValue| #[trigger] filter.requires((u,)),
                keep.len() == i,
                forall|j: int| 0 <= j < i ==> filter.ensures((self.users@[j],), #[trigger] keep[j]),
                result@ == users_kept(self@.take(i as int), keep),
            decreases n - i,
        {
            let user: &'a UserStoreWithNativeUserValue = self.users[i];
            let b = filter(user);
            proof {
                let old_keep = keep;
                keep = keep.push(b);
                assert(self@.take(i + 1).drop_last() =~= self@.take(i as int));
                assert(keep.drop_last() =~= old_keep);
                assert(self@[i as int] == user@);
                assert(self@.take(i + 1).last() == user@);
            }
            if b {
                proof {
                    lemma_kept_lacks_next_fid(self@, keep.drop_last(), i as int);
                }
                result.push_new(user);
            }
            i = i + 1;
        }
        proof {
            assert(self@.take(n as int) =~= self@);
        }
        result
    }

    /// The user with fid `fid`, if the subset has one. The user stays in the subset.
    pub fn drop_fid(&self, fid: Fid) -> (r: Option<&'a UserStoreWithNativeUserValue>)
        requires
            self.wf(),
        ensures
            r is Some <==> has_fid(self@, fid),
            r matches Some(u) ==> u@ == self@[position_of_fid(self@, fid)] && u@.0 == fid,
    {
        self.user(fid)
    }

    /// Add the user that `user` refers to, in place of a user with its fid if there is one.
    pub fn add_user<U: IsUser<'a>>(&mut self, user: U)
        requires
            old(self).wf(),
        ensures
            final(self).wf(),
            final(self)@ == insert_user(old(self)@, user.spec_user()@),
    {
        let fid = user.fid();
        let u = user.user();
        match self.position(fid) {
            Some(i) => {
                let ghost old_users = self.users@;
                proof {
                    self.lemma_wf_fids_unique();
                }
                self.users.set(i, u);
                assert(self@ =~= old(self)@.update(i as int, u@));
                assert forall|k: u64| #[trigger] self.index@.contains_key(k) implies self.index@[k]
                    < self.users@.len() && self.users@[self.index@[k] as int].spec_fid()@ == k by {
                    assert(old(self).index@.contains_key(k));
                    if self.index@[k] != i {
                        assert(self.users@[self.index@[k] as int] == old_users[self.index@[k] as int]);
                    }
                }
                assert forall|j: int| 0 <= j < self.users@.len() implies self.index@.contains_key(
                    #[trigger] self.users@[j].spec_fid()@,
                ) && self.index@[self.users@[j].spec_fid()@] == j by {
                    if j != i {
                        assert(self.users@[j] == old_users[j]);
                        assert(old(self).index@.contains_key(old_users[j].spec_fid()@));
                    } else {
                        assert(old(self).index@.contains_key(old_users[j].spec_fid()@));
                        assert(old_users[j]@ == old(self)@[j]);
                    }
                }
            },
            None => {
                self.push_new(u);
            },
        }
    }

    /// The number of users.
    pub fn user_count(&self) -> (r: usize)
        requires
            self.wf(),
        ensures
            r == self@.len(),
    {
        self.users.len()
    }

    /// The user with fid `fid`, if the subset has one.
    pub fn user(&self, fid: Fid) -> (r: Option<&'a UserStoreWithNativeUserValue>)
        requires
            self.wf(),
        ensures
            r is Some <==> has_fid(self@, fid),
            r matches Some(u) ==> u@ == self@[position_of_fid(self@, fid)] && u@.0 == fid,
    {
        match self.position(fid) {
            Some(i) => Some(self.users[i]),
            None => None,
        }
    }

    /// The users of the subset, in order.
    pub fn iter(&self) -> (r: &Vec<&'a UserStoreWithNativeUserValue>)
        ensures
            r@ == self.spec_users(),
    {
        &self.users
    }
}

impl<'a> UsersSubset<'a> {
    /// All users of the collection, in their order.
    pub fn from(users: &'a UserCollection) -> (r: Self)
        requires
            users.wf(),
        ensures
            r.wf(),
            r@ == users@,
            r.spec_users() == users.spec_users().map_values(|u: UserStoreWithNativeUserValue| &u),
    {
        proof {
            users.lemma_wf_fids_unique();
            users.lemma_view_users();
        }
        let all = users.iter();
        let n = all.len();
        let mut result = UsersSubset::new();
        let mut i: usize = 0;
        while i < n
            invariant
                n == all@.len(),
                all@ == users.spec_users(),
                users@.len() == n,
                forall|j: int| 0 <= j < n ==> #[trigger] users@[j] == all@[j]@,
                i <= n,
                fids_unique(users@),
                result.wf(),
                result@ == users@.take(i as int),
                result.spec_users() == all@.take(i as int).map_values(
                    |u: UserStoreWithNativeUserValue| &u,
                ),
            decreases n - i,
        {
            let user = &all[i];
            proof {
                if has_fid(result@, user@.0) {
                    let j = choose|j: int| 0 <= j < result@.len() && #[trigger] result@[j].0 == user@.0;
                    assert(users@[j].0 == users@[i as int].0);
                }
            }
            result.push_new(user);
            proof {
                assert(result@ =~= users@.take(i + 1));
                assert(result.spec_users() =~= all@.take(i + 1).map_values(
                    |u: UserStoreWithNativeUserValue| &u,
                ));
            }
            i = i + 1;
        }
        proof {
            assert(users@.take(n as int) =~= users@);
            assert(all@.take(n as int) =~= all@);
        }
        result
    }
}

/// The users kept from the first `k` users of a sequence with distinct fids do not have the
/// fid of user `k`.
pub proof fn lemma_kept_lacks_next_fid(
    users: Seq<(Fid, Seq<AnyNativeUserValue>)>,
    keep: Seq<bool>,
    k: int,
)
    requires
        0 <= k < users.len(),
        keep.len() == k,
        fids_unique(users),
    ensures
        !has_fid(users_kept(users.take(k), keep), users[k].0),
{
    crate::user_collection::lemma_kept_fids_from(users, keep, k, users[k].0);
}

impl<'a> Default for UsersSubset<'a> {
    /// An empty subset.
    fn default() -> (r: Self)
        ensures
            r.wf(),
            r@.len() == 0,
    {
        UsersSubset::new()
    }
}

} // verus!
