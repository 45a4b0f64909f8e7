//! A collection of users, each with a distinct fid.
use crate::fid::Fid;
use crate::user::UserStoreWithNativeUserValue;
use crate::user_value::{values_of_kind, AnyNativeUserValue, HasTag, NativeUserValue, UserValue};
use std::collections::HashMap;
use vstd::prelude::*;
use vstd::std_specs::convert::FromSpecImpl;
use crate::fetch::errors::DataReadError;
use crate::fidded::Fidded;
use crate::unprocessed_user_line::{SpamDataParseError, UnprocessedUserLine};
use crate::user_value::DatedSpamUpdate;

verus! {

broadcast use {vstd::std_specs::hash::group_hash_axioms, crate::fid::lemma_fid_view_injective};

/// Errors of a collection of users.
#[derive(Debug, PartialEq, Clone, Copy, Hash, Eq, Structural)]
#[non_exhaustive]
pub enum CollectionError {
    UserValueCollisionError,
    DuplicateUserError,
}

/// Errors of making a collection of users from data.
#[derive(Debug, Clone, PartialEq)]
pub enum DataCreationError {
    /// The data is not valid.
    InvalidInputError,
    /// The data cannot be read.
    DataReadError(DataReadError),
    /// Two users share a fid.
    DuplicateUserError,
}

impl From<DataReadError> for DataCreationError {
    fn from(value: DataReadError) -> (r: Self)
        ensures
            r == DataCreationError::DataReadError(value),
    {
        DataCreationError::DataReadError(value)
    }
}

impl FromSpecImpl<DataReadError> for DataCreationError {
    open spec fn obeys_from_spec() -> bool {
        true
    }

    open spec fn from_spec(v: DataReadError) -> DataCreationError {
        DataCreationError::DataReadError(v)
    }
}

/// Whether no two users of `users` share a fid.
pub open spec fn fids_unique(users: Seq<(Fid, Seq<AnyNativeUserValue>)>) -> bool {
    forall|i: int, j: int|
        0 <= i < users.len() && 0 <= j < users.len() && i != j ==> #[trigger] users[i].0
            != #[trigger] users[j].0
}

/// Whether a user of `users` has fid `fid`.
pub open spec fn has_fid(users: Seq<(Fid, Seq<AnyNativeUserValue>)>, fid: Fid) -> bool {
    exists|i: int| 0 <= i < users.len() && #[trigger] users[i].0 == fid
}

/// The position of the user with fid `fid` in `users`.
pub open spec fn position_of_fid(users: Seq<(Fid, Seq<AnyNativeUserValue>)>, fid: Fid) -> int {
    choose|i: int| 0 <= i < users.len() && #[trigger] users[i].0 == fid
}

/// `users` with `value` added to the user with fid `fid`, or with a new user of fid `fid`
/// holding only `value` at the end when there is none.
pub open spec fn insert_value(
    users: Seq<(Fid, Seq<AnyNativeUserValue>)>,
    fid: Fid,
    value: AnyNativeUserValue,
) -> Seq<(Fid, Seq<AnyNativeUserValue>)> {
    if has_fid(users, fid) {
        let i = position_of_fid(users, fid);
        users.update(i, (fid, users[i].1.push(value)))
    } else {
        users.push((fid, seq![value]))
    }
}

/// `users` with each fid-tagged value of `tagged` inserted, in order.
pub open spec fn insert_values(
    users: Seq<(Fid, Seq<AnyNativeUserValue>)>,
    tagged: Seq<(Fid, AnyNativeUserValue)>,
) -> Seq<(Fid, Seq<AnyNativeUserValue>)>
    decreases tagged.len(),
{
    if tagged.len() == 0 {
        users
    } else {
        insert_value(
            insert_values(users, tagged.drop_last()),
            tagged.last().0,
            tagged.last().1,
        )
    }
}

/// `users` with each fid-tagged value of `tagged` added, in order, to the user of its fid, when
/// there is one; the others are left out.
pub open spec fn insert_existing_values(
    users: Seq<(Fid, Seq<AnyNativeUserValue>)>,
    tagged: Seq<(Fid, AnyNativeUserValue)>,
) -> Seq<(Fid, Seq<AnyNativeUserValue>)>
    decreases tagged.len(),
{
    if tagged.len() == 0 {
        users
    } else {
        let rest = insert_existing_values(users, tagged.drop_last());
        if has_fid(rest, tagged.last().0) {
            insert_value(rest, tagged.last().0, tagged.last().1)
        } else {
            rest
        }
    }
}

/// The conversion errors of the lines that do not convert to a spam update, in order.
pub open spec fn line_errors(lines: Seq<UnprocessedUserLine>) -> Seq<SpamDataParseError>
    decreases lines.len(),
{
    if lines.len() == 0 {
        Seq::empty()
    } else {
        let rest = line_errors(lines.drop_last());
        match lines.last().conversion_error() {
            Some(e) => rest.push(e),
            None => rest,
        }
    }
}

/// The lines that convert to a spam update, in order.
pub open spec fn convertible_lines(lines: Seq<UnprocessedUserLine>) -> Seq<UnprocessedUserLine>
    decreases lines.len(),
{
    if lines.len() == 0 {
        Seq::empty()
    } else {
        let rest = convertible_lines(lines.drop_last());
        if lines.last().conversion_error() is None {
            rest.push(lines.last())
        } else {
            rest
        }
    }
}

/// Whether `value` collides with a value of its kind that the user of fid `fid` in `users`
/// holds; false when no user has that fid.
pub open spec fn collides_in<S: NativeUserValue>(
    users: Seq<(Fid, Seq<AnyNativeUserValue>)>,
    fid: Fid,
    value: S,
) -> bool {
    has_fid(users, fid) && {
        let held = values_of_kind::<AnyNativeUserValue, S>(users[position_of_fid(users, fid)].1);
        exists|i: int| 0 <= i < held.len() && (#[trigger] held[i]).spec_collides(&value)
    }
}

/// The collision errors met when the fid-tagged values of `values` are added to `users` in
/// order: one for each value that collides with a value of its kind that its user holds
/// when it is added.
pub open spec fn collision_errors<S: NativeUserValue, V: HasTag<Fid, S>>(
    users: Seq<(Fid, Seq<AnyNativeUserValue>)>,
    values: Seq<V>,
) -> Seq<CollectionError>
    decreases values.len(),
{
    if values.len() == 0 {
        Seq::empty()
    } else {
        let rest = collision_errors::<S, V>(users, values.drop_last());
        let before = insert_values(users, tagged_values::<S, V>(values.drop_last()));
        if collides_in(before, values.last().spec_tag(), values.last().spec_inner()) {
            rest.push(CollectionError::UserValueCollisionError)
        } else {
            rest
        }
    }
}

/// The users of `users` for which `keep` holds, in order.
pub open spec fn users_kept<A>(users: Seq<A>, keep: Seq<bool>) -> Seq<A>
    decreases users.len(),
{
    if users.len() == 0 || keep.len() == 0 {
        Seq::empty()
    } else {
        let rest = users_kept(users.drop_last(), keep.drop_last());
        if keep.last() {
            rest.push(users.last())
        } else {
            rest
        }
    }
}

/// The fid of each tagged value and the value as it is stored.
pub open spec fn tagged_values<S: NativeUserValue, V: HasTag<Fid, S>>(values: Seq<V>) -> Seq<
    (Fid, AnyNativeUserValue),
> {
    values.map_values(|v: V| (v.spec_tag(), v.spec_inner().spec_into_any()))
}

/// A representation of one or several users, each with its own fid. This is the main
/// struct to store user data.
#[derive(Debug, Clone)]
pub struct UserCollection {
    index: HashMap<u64, usize>,
    users: Vec<UserStoreWithNativeUserValue>,
}

impl View for UserCollection {
    type V = Seq<(Fid, Seq<AnyNativeUserValue>)>;

    /// The users of the collection, in the order they were added.
    closed spec fn view(&self) -> Seq<(Fid, Seq<AnyNativeUserValue>)> {
        self.users@.map_values(|u: UserStoreWithNativeUserValue| u@)
    }
}

impl UserCollection {
    /// The users of the collection, in the order they were added.
    pub closed spec fn spec_users(self) -> Seq<UserStoreWithNativeUserValue> {
        self.users@
    }

    /// The view of the collection is the view of each of its users.
    pub proof fn lemma_view_users(self)
        ensures
            self@ == self.spec_users().map_values(|u: UserStoreWithNativeUserValue| u@),
            self@.len() == self.spec_users().len(),
            forall|i: int| 0 <= i < self@.len() ==> #[trigger] self@[i] == self.spec_users()[i]@,
    {
    }

    /// The index finds each user by its fid.
    pub closed spec fn wf(self) -> bool {
        &&& forall|k: u64| #[trigger]
            self.index@.contains_key(k) ==> self.index@[k] < self.users@.len()
                && self.users@[self.index@[k] as int].spec_fid()@ == k
        &&& forall|i: int|
            0 <= i < self.users@.len() ==> self.index@.contains_key(
                #[trigger] self.users@[i].spec_fid()@,
            ) && self.index@[self.users@[i].spec_fid()@] == i
    }

    pub proof fn lemma_wf_fids_unique(self)
        requires
            self.wf(),
        ensures
            fids_unique(self@),
    {
        assert forall|i: int, j: int|
            0 <= i < self@.len() && 0 <= j < self@.len() && i != j implies #[trigger] self@[i].0
            != #[trigger] self@[j].0 by {
            assert(self.users@[i]@ == self@[i]);
            assert(self.users@[j]@ == self@[j]);
            let fi = self.users@[i].spec_fid();
            let fj = self.users@[j].spec_fid();
            assert(self.index@.contains_key(fi@));
            assert(self.index@.contains_key(fj@));
            if fi == fj {
                assert(fi@ == fj@);
            }
        }
    }

    /// An empty collection.
    pub fn new() -> (r: Self)
        ensures
            r.wf(),
            r@.len() == 0,
    {
        let r = UserCollection { index: HashMap::new(), users: Vec::new() };
        assert(r@ =~= Seq::empty());
        r
    }

    /// The number of users.
    pub fn user_count(&self) -> (r: usize)
        requires
            self.wf(),
        ensures
            r == self@.len(),
    {
        self.users.len()
    }

    /// The position of the user with fid `fid`, if there is one.
    fn position(&self, fid: Fid) -> (r: Option<usize>)
        requires
            self.wf(),
        ensures
            r is Some <==> has_fid(self@, fid),
            r matches Some(i) ==> i < self@.len() && self@[i as int].0 == fid && i
                == position_of_fid(self@, fid),
    {
        proof {
            self.lemma_wf_fids_unique();
        }
        match self.index.get(&fid.value()) {
            Some(i) => {
                let i = *i;
                assert(self.index@.contains_key(fid@));
                assert(self.users@[i as int]@ == self@[i as int]);
                assert(self@[i as int].0@ == fid@);
                assert(has_fid(self@, fid));
                let ghost p = position_of_fid(self@, fid);
                assert(self@[p].0 == fid);
                Some(i)
            },
            None => {
                assert forall|j: int| 0 <= j < self@.len() implies #[trigger] self@[j].0 != fid by {
                    assert(self.users@[j]@ == self@[j]);
                    assert(self.index@.contains_key(self.users@[j].spec_fid()@));
                    if self@[j].0 == fid {
                        assert(self.users@[j].spec_fid()@ == fid@);
                    }
                }
                None
            },
        }
    }

    /// The user with fid `fid`, if there is one.
    pub fn user(&self, fid: Fid) -> (r: Option<&UserStoreWithNativeUserValue>)
        requires
            self.wf(),
        ensures
            r is Some <==> has_fid(self@, fid),
            r matches Some(u) ==> u@ == self@[position_of_fid(self@, fid)] && u@.0 == fid,
    {
        match self.position(fid) {
            Some(i) => Some(&self.users[i]),
            None => None,
        }
    }

    /// The user with fid `fid`, to change in place, if there is one. The collection stays well
    /// formed as long as the user keeps its fid.
    pub fn user_mut(&mut self, fid: Fid) -> (r: Option<&mut UserStoreWithNativeUserValue>)
        requires
            old(self).wf(),
        ensures
            r is Some <==> has_fid(old(self)@, fid),
            r is None ==> *final(self) == *old(self),
            r is Some ==> {
                let p = position_of_fid(old(self)@, fid);
                &&& (*r->0)@ == old(self)@[p]
                &&& final(self)@ == old(self)@.update(p, (*final(r->0))@)
                &&& (*final(r->0))@.0 == fid ==> final(self).wf()
            },
    {
        match self.position(fid) {
            Some(i) => {
                proof {
                    self.lemma_wf_fids_unique();
                    assert(self@[i as int].0 == fid);
                    let p = position_of_fid(self@, fid);
                    assert(self@[p].0 == fid);
                }
                Some(&mut self.users[i])
            },
            None => None,
        }
    }

    /// Add `user`, unless the collection has a user with its fid already.
    pub fn add_user(&mut self, user: UserStoreWithNativeUserValue) -> (r: Result<
        (),
        CollectionError,
    >)
        requires
            old(self).wf(),
        ensures
            final(self).wf(),
            r is Ok <==> !has_fid(old(self)@, user@.0),
            r is Ok ==> final(self)@ == old(self)@.push(user@),
            r is Err ==> final(self)@ == old(self)@ && r == Err::<(), CollectionError>(
                CollectionError::DuplicateUserError,
            ),
    {
        let fid = user.fid();
        match self.position(fid) {
            Some(_) => Err(CollectionError::DuplicateUserError),
            None => {
                let ghost old_users = self.users@;
                let n = self.users.len();
                self.index.insert(fid.value(), n);
                self.users.push(user);
                assert(self@ =~= old(self)@.push(user@));
                assert forall|i: int| 0 <= i < n implies #[trigger] self.users@[i].spec_fid()@ != fid@ by {
                    assert(self.users@[i] == old_users[i]);
                    assert(old_users[i]@ == old(self)@[i]);
                    assert(old(self)@[i].0 != fid);
                }
                assert forall|k: u64| #[trigger] self.index@.contains_key(k) implies self.index@[k] < self.users@.len()
                    && self.users@[self.index@[k] as int].spec_fid()@ == k by {
                    if k != fid@ {
                        assert(old(self).index@.contains_key(k));
                        assert(self.users@[self.index@[k] as int] == old_users[self.index@[k] as int]);
                    }
                }
                assert forall|i: int| 0 <= i < self.users@.len() implies self.index@.contains_key(
                    #[trigger] self.users@[i].spec_fid()@,
                ) && self.index@[self.users@[i].spec_fid()@] == i by {
                    if i < n {
                        assert(self.users@[i] == old_users[i]);
                        assert(old(self).index@.contains_key(old_users[i].spec_fid()@));
                    }
                }
                Ok(())
            },
        }
    }

    /// Add each fid-tagged value to the user with its fid, creating that user when there is none;
    /// every value is added. Returns the collision errors met, in order: one for each value that
    /// collides with a value of its kind that its user already holds.
    pub fn add_user_value_iter<S: NativeUserValue, V: HasTag<Fid, S>>(&mut self, values: Vec<V>) -> (r:
        Vec<CollectionError>)
        requires
            old(self).wf(),
        ensures
            final(self).wf(),
            final(self)@ == insert_values(old(self)@, tagged_values::<S, V>(values@)),
            r@ == collision_errors::<S, V>(old(self)@, values@),
    {
        let ghost all = values@;
        let ghost tagged = tagged_values::<S, V>(values@);
        let mut errors: Vec<CollectionError> = Vec::new();
        for value in it: values
            invariant
                self.wf(),
                all == it.seq(),
                tagged == tagged_values::<S, V>(it.seq()),
                self@ == insert_values(old(self)@, tagged.take(it.index() as int)),
                errors@ == collision_errors::<S, V>(old(self)@, all.take(it.index() as int)),
        {
            let ghost before = self@;
            let ghost k = it.index() as int;
            let fid = value.tag();
            let (_, inner) = value.untag();
            proof {
                assert(tagged.take(k + 1).drop_last() =~= tagged.take(k));
                assert(all.take(k + 1).drop_last() =~= all.take(k));
                assert(all.take(k + 1).last() == value);
                assert(tagged_values::<S, V>(all.take(k)) =~= tagged.take(k));
                assert(tagged_values::<S, V>(all.take(k + 1).drop_last()) == tagged.take(k));
                assert(collision_errors::<S, V>(old(self)@, all.take(k + 1)) == if collides_in(
                    before,
                    fid,
                    inner,
                ) {
                    errors@.push(CollectionError::UserValueCollisionError)
                } else {
                    errors@
                });
            }
            match self.position(fid) {
                Some(i) => {
                    let collides = self.users[i].holds_collision_with(&inner);
                    proof {
                        assert(self.spec_users()[i as int]@ == before[i as int]);
                        assert(has_fid(before, fid));
                        assert(self.spec_users()[i as int].kind::<S>() == values_of_kind::<
                            AnyNativeUserValue,
                            S,
                        >(before[position_of_fid(before, fid)].1));
                        assert(collides == collides_in(before, fid, inner));
                    }
                    if collides {
                        errors.push(CollectionError::UserValueCollisionError);
                    }
                    self.users[i].add_user_value(inner);
                    assert(self@ =~= insert_value(before, fid, inner.spec_into_any()));
                },
                None => {
                    assert(!collides_in(before, fid, inner));
                    let mut user = UserStoreWithNativeUserValue::new(fid);
                    user.add_user_value(inner);
                    let r = self.add_user(user);
                    assert(user@.1 =~= seq![inner.spec_into_any()]);
                },
            }
            assert(errors@ == collision_errors::<S, V>(old(self)@, all.take(k + 1)));
        }
        assert(tagged.take(tagged.len() as int) =~= tagged);
        assert(all.take(all.len() as int) =~= all);
        errors
    }

    /// Add each fid-tagged value to the user with its fid when the collection has that user;
    /// a value of a fid that no user has is left out, and no user is created.
    pub fn add_values_to_existing<S: NativeUserValue, V: HasTag<Fid, S>>(&mut self, values: Vec<V>)
        requires
            old(self).wf(),
        ensures
            final(self).wf(),
            final(self)@ == insert_existing_values(old(self)@, tagged_values::<S, V>(values@)),
            final(self)@.len() == old(self)@.len(),
            forall|i: int| 0 <= i < final(self)@.len() ==> #[trigger] final(self)@[i].0 == old(self)@[i].0,
    {
        let ghost tagged = tagged_values::<S, V>(values@);
        for value in it: values
            invariant
                self.wf(),
                tagged == tagged_values::<S, V>(it.seq()),
                self@ == insert_existing_values(old(self)@, tagged.take(it.index() as int)),
                self@.len() == old(self)@.len(),
                forall|i: int| 0 <= i < self@.len() ==> #[trigger] self@[i].0 == old(self)@[i].0,
        {
            let ghost before = self@;
            let fid = value.tag();
            let (_, inner) = value.untag();
            proof {
                assert(tagged.take(it.index() as int + 1).drop_last() =~= tagged.take(
                    it.index() as int,
                ));
            }
            match self.position(fid) {
                Some(i) => {
                    self.users[i].add_user_value(inner);
                    assert(self@ =~= insert_value(before, fid, inner.spec_into_any()));
                    assert forall|j: int| 0 <= j < self@.len() implies #[trigger] self@[j].0 == old(
                        self,
                    )@[j].0 by {
                        assert(before[j].0 == old(self)@[j].0);
                    }
                },
                None => {},
            }
        }
        assert(tagged.take(tagged.len() as int) =~= tagged);
    }

    /// The collection made of `lines`: each line that converts to a spam update has it added
    /// to the user of its fid, in order; beside the collection come the conversion errors of
    /// the other lines, in order.
    pub fn from_lines(lines: Vec<UnprocessedUserLine>) -> (r: (UserCollection, Vec<
        SpamDataParseError,
    >))
        ensures
            r.0.wf(),
            r.1@ == line_errors(lines@),
            exists|ups: Seq<Fidded<DatedSpamUpdate>>|
                {
                    &&& ups.len() == convertible_lines(lines@).len()
                    &&& forall|i: int|
                        0 <= i < ups.len() ==> convertible_lines(lines@)[i].converts_to(
                            #[trigger] ups[i],
                        )
                    &&& r.0@ == insert_values(
                        Seq::empty(),
                        tagged_values::<DatedSpamUpdate, Fidded<DatedSpamUpdate>>(ups),
                    )
                },
    {
        let ghost all = lines@;
        let mut updates: Vec<Fidded<DatedSpamUpdate>> = Vec::new();
        let mut errors: Vec<SpamDataParseError> = Vec::new();
        for line in it: lines
            invariant
                all == it.seq(),
                errors@ == line_errors(all.take(it.index() as int)),
                updates@.len() == convertible_lines(all.take(it.index() as int)).len(),
                forall|i: int|
                    0 <= i < updates@.len() ==> convertible_lines(all.take(it.index() as int))[i].converts_to(
                        #[trigger] updates@[i],
                    ),
        {
            let ghost k = it.index() as int;
            proof {
                assert(all.take(k + 1).drop_last() =~= all.take(k));
                assert(all.take(k + 1).last() == line);
            }
            let ghost before = convertible_lines(all.take(k));
            match Fidded::<DatedSpamUpdate>::try_from(line) {
                Ok(update) => {
                    updates.push(update);
                    proof {
                        assert forall|i: int| 0 <= i < updates@.len() implies convertible_lines(
                            all.take(k + 1),
                        )[i].converts_to(#[trigger] updates@[i]) by {
                            if i < before.len() {
                                assert(convertible_lines(all.take(k + 1))[i] == before[i]);
                            }
                        }
                    }
                },
                Err(e) => {
                    errors.push(e);
                },
            }
        }
        proof {
            assert(all.take(all.len() as int) =~= all);
        }
        let mut collection = UserCollection::new();
        proof {
            assert(collection@ =~= Seq::empty());
        }
        let _ = collection.add_user_value_iter(updates);
        (collection, errors)
    }

    /// The users of the collection by the number of their fid.
    pub fn data(&self) -> (r: HashMap<u64, &UserStoreWithNativeUserValue>)
        requires
            self.wf(),
        ensures
            forall|k: u64| #[trigger] r@.contains_key(k) <==> has_fid(self@, Fid::spec_new(k)),
            forall|k: u64|
                #[trigger] r@.contains_key(k) ==> r@[k]@ == self@[position_of_fid(
                    self@,
                    Fid::spec_new(k),
                )],
    {
        proof {
            self.lemma_wf_fids_unique();
        }
        let n = self.users.len();
        let mut result: HashMap<u64, &UserStoreWithNativeUserValue> = HashMap::new();
        let mut i: usize = 0;
        while i < n
            invariant
                n == self@.len(),
                self@ == self.spec_users().map_values(|u: UserStoreWithNativeUserValue| u@),
                fids_unique(self@),
                i <= n,
                forall|k: u64| #[trigger]
                    result@.contains_key(k) <==> exists|j: int| 0 <= j < i && self@[j].0@ == k,
                forall|j: int|
                    0 <= j < i ==> result@.contains_key(#[trigger] self@[j].0@) && result@[self@[j].0@]@
                        == self@[j],
            decreases n - i,
        {
            let user = &self.users[i];
            let key = user.fid().value();
            assert(self@[i as int] == user@);
            result.insert(key, user);
            proof {
                assert forall|j: int| 0 <= j < i implies self@[j].0@ != key by {
                    assert(self@[j].0 != self@[i as int].0);
                }
                assert forall|k: u64| #[trigger]
                    result@.contains_key(k) <==> exists|j: int| 0 <= j < i + 1 && self@[j].0@ == k by {
                    if k == key {
                        assert(self@[i as int].0@ == k);
                    }
                }
            }
            i = i + 1;
        }
        proof {
            assert forall|k: u64| #[trigger] result@.contains_key(k) <==> has_fid(self@, Fid::spec_new(k)) by {
                Fid::lemma_spec_new(k);
                if result@.contains_key(k) {
                    let j = choose|j: int| 0 <= j < n && self@[j].0@ == k;
                    assert(self@[j].0 == Fid::spec_new(k));
                }
                if has_fid(self@, Fid::spec_new(k)) {
                    let j = choose|j: int| 0 <= j < n && #[trigger] self@[j].0 == Fid::spec_new(k);
                    assert(self@[j].0@ == k);
                }
            }
            assert forall|k: u64| #[trigger] result@.contains_key(k) implies result@[k]@ == self@[position_of_fid(self@, Fid::spec_new(k))] by {
                Fid::lemma_spec_new(k);
                let p = position_of_fid(self@, Fid::spec_new(k));
                assert(self@[p].0@ == k);
            }
        }
        result
    }

    /// The users of the collection, in the order they were added.
    pub fn iter(&self) -> (r: &Vec<UserStoreWithNativeUserValue>)
        ensures
            r@ == self.spec_users(),
    {
        &self.users
    }

    /// Keep only the users for which `filter` returns true; they keep their order.
    pub fn apply_filter<F: Fn(&UserStoreWithNativeUserValue) -> bool>(&mut self, filter: F)
        requires
            old(self).wf(),
            forall|u: &UserStoreWithNativeUserValue| #[trigger] filter.requires((u,)),
        ensures
            final(self).wf(),
            exists|keep: Seq<bool>|
                {
                    &&& keep.len() == old(self)@.len()
                    &&& forall|i: int|
                        0 <= i < keep.len() ==> filter.ensures(
                            (&old(self).spec_users()[i],),
                            #[trigger] keep[i],
                        )
                    &&& final(self)@ == users_kept(old(self)@, keep)
                },
    {
        proof {
            self.lemma_wf_fids_unique();
        }
        let ghost old_view = self@;
        let ghost old_users = self.users@;
        let mut users: Vec<UserStoreWithNativeUserValue> = Vec::new();
        core::mem::swap(&mut users, &mut self.users);
        let mut kept = UserCollection::new();
        let ghost mut keep: Seq<bool> = Seq::empty();
        for user in it: users
            invariant
                it.seq() == old_users,
                old_view == old_users.map_values(|u: UserStoreWithNativeUserValue| u@),
                fids_unique(old_view),
                kept.wf(),
                forall|u: &UserStoreWithNativeUserValue| #[trigger] filter.requires((u,)),
                keep.len() == it.index(),
                forall|j: int|
                    0 <= j < it.index() ==> filter.ensures((&old_users[j],), #[trigger] keep[j]),
                kept@ == users_kept(old_view.take(it.index() as int), keep),
        {
            let ghost k = it.index() as int;
            let b = filter(&user);
            proof {
                let old_keep = keep;
                keep = keep.push(b);
                assert(old_view.take(k + 1).drop_last() =~= old_view.take(k));
                assert(keep.drop_last() =~= old_keep);
                assert(old_view[k] == user@);
                assert(old_view.take(k + 1).last() == user@);
            }
            if b {
                proof {
                    lemma_kept_fids_from(old_view, keep.drop_last(), k, user@.0);
                }
                let r = kept.add_user(user);
            }
        }
        proof {
            assert(old_view.take(old_view.len() as int) =~= old_view);
        }
        *self = kept;
    }
}

/// The users kept from the first `k` users of a sequence with distinct fids do not have the
/// fid of user `k`.
pub proof fn lemma_kept_fids_from(users: Seq<(Fid, Seq<AnyNativeUserValue>)>, keep: Seq<bool>, k: int, fid: Fid)
    requires
        0 <= k < users.len(),
        keep.len() == k,
        fids_unique(users),
        users[k].0 == fid,
    ensures
        !has_fid(users_kept(users.take(k), keep), fid),
{
    lemma_users_kept_members(users.take(k), keep);
    let kept = users_kept(users.take(k), keep);
    if has_fid(kept, fid) {
        let i = choose|i: int| 0 <= i < kept.len() && #[trigger] kept[i].0 == fid;
        let j = choose|j: int| 0 <= j < k && users.take(k)[j] == kept[i];
        assert(users[j].0 == users[k].0);
    }
}

/// Each user kept is one of the users, at a position within the first `keep.len()`.
pub proof fn lemma_users_kept_members<A>(users: Seq<A>, keep: Seq<bool>)
    requires
        keep.len() == users.len(),
    ensures
        forall|i: int|
            0 <= i < users_kept(users, keep).len() ==> exists|j: int|
                0 <= j < keep.len() && #[trigger] users[j] == #[trigger] users_kept(users, keep)[i],
    decreases users.len(),
{
    if users.len() > 0 {
        let rest_users = users.drop_last();
        let rest_keep = keep.drop_last();
        lemma_users_kept_members(rest_users, rest_keep);
        let rest = users_kept(rest_users, rest_keep);
        assert forall|i: int| 0 <= i < users_kept(users, keep).len() implies exists|j: int|
            0 <= j < keep.len() && #[trigger] users[j] == #[trigger] users_kept(users, keep)[i] by {
            let kept = users_kept(users, keep);
            if i < rest.len() {
                assert(kept[i] == rest[i]);
                let j = choose|j: int|
                    0 <= j < rest_keep.len() && #[trigger] rest_users[j] == #[trigger] rest[i];
                assert(users[j] == rest_users[j]);
                assert(users[j] == kept[i]);
            } else {
                assert(users[users.len() - 1] == kept[i]);
            }
        }
    }
}

/// A user added to users with distinct fids, whose fid none of them has, keeps the fids
/// distinct, and looking up its fid finds it.
pub proof fn lemma_add_user_then_lookup(
    users: Seq<(Fid, Seq<AnyNativeUserValue>)>,
    user: (Fid, Seq<AnyNativeUserValue>),
)
    requires
        fids_unique(users),
        !has_fid(users, user.0),
    ensures
        fids_unique(users.push(user)),
        has_fid(users.push(user), user.0),
        users.push(user)[position_of_fid(users.push(user), user.0)] == user,
{
    let after = users.push(user);
    assert(after[users.len() as int].0 == user.0);
    assert forall|i: int, j: int|
        0 <= i < after.len() && 0 <= j < after.len() && i != j implies #[trigger] after[i].0
        != #[trigger] after[j].0 by {
        if i < users.len() && j < users.len() {
            assert(after[i] == users[i] && after[j] == users[j]);
        } else if i < users.len() {
            assert(after[i] == users[i]);
        } else {
            assert(after[j] == users[j]);
        }
    }
    let p = position_of_fid(after, user.0);
    if p < users.len() {
        assert(users[p].0 == user.0);
    }
}

impl Default for UserCollection {
    /// An empty collection.
    fn default() -> (r: Self)
        ensures
            r.wf(),
            r@.len() == 0,
    {
        UserCollection::new()
    }
}

} // verus!
