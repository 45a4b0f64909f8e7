//! The store of one user's values, for the kinds of values this library knows.
use crate::fid::Fid;
use crate::user_store::{
    collides_with_none, collision_free, lemma_values_of_kind_push, lemma_values_of_kind_take,
    UserError, UserStore,
};
use crate::user_value::{
    values_of_kind, AnyNativeUserValue, Collidable, NativeUserValue, UserValue,
};
use vstd::prelude::*;

verus! {

/// The values of one user, each an [`AnyNativeUserValue`].
#[derive(Debug, PartialEq, Eq, Clone, Hash)]
pub struct UserStoreWithNativeUserValue {
    core: UserStore<AnyNativeUserValue>,
}

impl View for UserStoreWithNativeUserValue {
    type V = (Fid, Seq<AnyNativeUserValue>);

    /// The fid of the user and its values, in the order they were added.
    open spec fn view(&self) -> (Fid, Seq<AnyNativeUserValue>) {
        (self.spec_fid(), self.spec_values())
    }
}

impl UserStoreWithNativeUserValue {
    pub closed spec fn spec_fid(self) -> Fid {
        self.core.spec_fid()
    }

    /// The values of the user, in the order they were added.
    pub closed spec fn spec_values(self) -> Seq<AnyNativeUserValue> {
        self.core.spec_values()
    }

    /// The values of kind `T` of the user, in the order they were added.
    pub open spec fn kind<T: NativeUserValue>(self) -> Seq<T> {
        values_of_kind::<AnyNativeUserValue, T>(self.spec_values())
    }

    /// Check if the user has at least one value of kind `T`.
    pub fn has<T: NativeUserValue>(&self) -> (r: bool)
        ensures
            r == (self.kind::<T>().len() > 0),
    {
        self.core.has::<T>()
    }

    /// Add `value` unless it collides with a value of its kind that the user has.
    pub fn try_add_user_value<T: NativeUserValue + Collidable>(&mut self, value: T) -> (r: Result<
        (),
        UserError,
    >)
        ensures
            r is Ok <==> collides_with_none(old(self).kind::<T>(), value),
            final(self).spec_fid() == old(self).spec_fid(),
            r is Ok ==> final(self).spec_values() == old(self).spec_values().push(
                value.spec_into_any(),
            ),
            r is Err ==> final(self).spec_values() == old(self).spec_values(),
            collision_free(old(self).kind::<T>()) && T::spec_from_any(value.spec_into_any())
                == Some(value) ==> collision_free(final(self).kind::<T>()),
    {
        let ghost before = self.spec_values();
        let r = self.core.try_add_user_value(value);
        proof {
            if r is Ok && collision_free(old(self).kind::<T>()) && T::spec_from_any(
                value.spec_into_any(),
            ) == Some(value) {
                crate::user_store::lemma_try_add_keeps_collision_free::<AnyNativeUserValue, T>(
                    before,
                    value,
                );
            }
        }
        r
    }

    /// Add `value` without checking for collisions.
    pub fn add_user_value<T: NativeUserValue>(&mut self, value: T)
        ensures
            final(self).spec_fid() == old(self).spec_fid(),
            final(self).spec_values() == old(self).spec_values().push(value.spec_into_any()),
    {
        self.core.add_user_value(value);
    }

    /// Whether `value` collides with a value of its kind that the user holds.
    pub fn holds_collision_with<T: NativeUserValue>(&self, value: &T) -> (r: bool)
        ensures
            r == exists|i: int|
                0 <= i < self.kind::<T>().len() && (#[trigger] self.kind::<T>()[i]).spec_collides(
                    value,
                ),
    {
        let kinds = self.user_values_of_kind::<T>();
        let n = kinds.len();
        let mut i: usize = 0;
        while i < n
            invariant
                n == kinds@.len(),
                n == self.kind::<T>().len(),
                forall|j: int| 0 <= j < n ==> *kinds@[j] == self.kind::<T>()[j],
                i <= n,
                forall|j: int| 0 <= j < i ==> !(#[trigger] self.kind::<T>()[j]).spec_collides(value),
            decreases n - i,
        {
            if kinds[i].collides(value) {
                assert(self.kind::<T>()[i as int].spec_collides(value));
                return true;
            }
            i = i + 1;
        }
        false
    }

    /// All values of the user, in the order they were added.
    pub fn all_user_values(&self) -> (r: &Vec<AnyNativeUserValue>)
        ensures
            r@ == self.spec_values(),
    {
        self.core.all_user_values()
    }

    /// References to the values of kind `T`, in the order they were added.
    pub fn user_values_of_kind<T: NativeUserValue>(&self) -> (r: Vec<&T>)
        ensures
            r@.len() == self.kind::<T>().len(),
            forall|j: int| 0 <= j < r@.len() ==> *r@[j] == self.kind::<T>()[j],
    {
        self.core.user_values_of_kind::<T>()
    }

    /// A user with fid `fid` and no values.
    pub fn new(fid: Fid) -> (r: Self)
        ensures
            r.spec_fid() == fid,
            r.spec_values().len() == 0,
    {
        UserStoreWithNativeUserValue { core: UserStore::from(fid) }
    }

    pub fn fid(&self) -> (r: Fid)
        ensures
            r == self.spec_fid(),
    {
        self.core.fid()
    }

    /// A user with fid `fid` holding `values`.
    pub fn from_user_values(fid: Fid, values: Vec<AnyNativeUserValue>) -> (r: Self)
        ensures
            r.spec_fid() == fid,
            r.spec_values() == values@,
    {
        UserStoreWithNativeUserValue { core: UserStore::from_generic_user_values(fid, values) }
    }
}

#[verifier::external_type_specification]
#[verifier::external_body]
pub struct ExNaiveDateTime(chrono::NaiveDateTime);

/// The local date and time now.
/// Calls `chrono::Local::now` and takes its local date and time; nothing is stated of it.
#[verifier::external_body]
fn now() -> (r: chrono::NaiveDateTime) {
    chrono::Local::now().naive_local()
}

/// A user with a plain fid, whose values each carry the local time at which they were last
/// added.
#[derive(Debug, PartialEq, Eq, Clone, Hash)]
pub struct User {
    fid: usize,
    user_values: Option<Vec<(AnyNativeUserValue, chrono::NaiveDateTime)>>,
}

impl User {
    pub closed spec fn spec_fid(self) -> usize {
        self.fid
    }

    /// Whether the user has a list of values, which it gets with its first value.
    pub closed spec fn has_value_list(self) -> bool {
        self.user_values is Some
    }

    /// The values with their times, in the order they were first added.
    pub closed spec fn spec_entries(self) -> Seq<(AnyNativeUserValue, chrono::NaiveDateTime)> {
        match self.user_values {
            Some(v) => v@,
            None => Seq::empty(),
        }
    }

    /// The values, in the order they were first added.
    pub open spec fn spec_values(self) -> Seq<AnyNativeUserValue> {
        self.spec_entries().map_values(|e: (AnyNativeUserValue, chrono::NaiveDateTime)| e.0)
    }

    /// The values of kind `T`, in the order they were first added.
    pub open spec fn kind<T: NativeUserValue>(self) -> Seq<T> {
        values_of_kind::<AnyNativeUserValue, T>(self.spec_values())
    }

    /// A user with fid `fid` and no values.
    pub fn new(fid: usize) -> (r: Self)
        ensures
            r.spec_fid() == fid,
            !r.has_value_list(),
            r.spec_values().len() == 0,
    {
        User { fid, user_values: None }
    }

    pub fn fid(&self) -> (r: usize)
        ensures
            r == self.spec_fid(),
    {
        self.fid
    }

    /// The values with the times they were last added, if the user has a list of values.
    pub fn all_user_values(&self) -> (r: &Option<Vec<(AnyNativeUserValue, chrono::NaiveDateTime)>>)
        ensures
            r is Some <==> self.has_value_list(),
            r matches Some(v) ==> v@ == self.spec_entries(),
    {
        &self.user_values
    }

    /// Check if the user has at least one value of kind `T`.
    pub fn has<T: NativeUserValue>(&self) -> (r: bool)
        ensures
            r == (self.kind::<T>().len() > 0),
    {
        match &self.user_values {
            None => {
                assert(self.spec_values() =~= Seq::empty());
                false
            },
            Some(entries) => {
                let ghost values = self.spec_values();
                let n = entries.len();
                let mut i: usize = 0;
                while i < n
                    invariant
                        n == entries@.len(),
                        values == self.spec_values(),
                        entries@ == self.spec_entries(),
                        values.len() == n,
                        i <= n,
                        values_of_kind::<AnyNativeUserValue, T>(values.take(i as int)).len() == 0,
                    decreases n - i,
                {
                    proof {
                        lemma_values_of_kind_take::<AnyNativeUserValue, T>(values, i as int);
                    }
                    if T::from_any_ref(&entries[i].0).is_some() {
                        proof {
                            self.lemma_prefix_of_kinds::<T>(i as int + 1);
                        }
                        return true;
                    }
                    i = i + 1;
                }
                assert(values.take(n as int) =~= values);
                false
            },
        }
    }

    /// The values of kind `T` of the first `i` values start the values of kind `T` of all.
    proof fn lemma_prefix_of_kinds<T: NativeUserValue>(&self, i: int)
        requires
            0 <= i <= self.spec_values().len(),
        ensures
            values_of_kind::<AnyNativeUserValue, T>(self.spec_values().take(i)).len()
                <= self.kind::<T>().len(),
            forall|j: int|
                0 <= j < values_of_kind::<AnyNativeUserValue, T>(self.spec_values().take(i)).len()
                    ==> values_of_kind::<AnyNativeUserValue, T>(self.spec_values().take(i))[j]
                    == self.kind::<T>()[j],
        decreases self.spec_values().len() - i,
    {
        if i == self.spec_values().len() {
            assert(self.spec_values().take(i) =~= self.spec_values());
        } else {
            lemma_values_of_kind_take::<AnyNativeUserValue, T>(self.spec_values(), i);
            self.lemma_prefix_of_kinds::<T>(i + 1);
        }
    }

    /// References to the values of kind `T`, in the order they were first added.
    pub fn user_values_of_kind<T: NativeUserValue>(&self) -> (r: Vec<&T>)
        ensures
            r@.len() == self.kind::<T>().len(),
            forall|j: int| 0 <= j < r@.len() ==> *r@[j] == self.kind::<T>()[j],
    {
        let mut result: Vec<&T> = Vec::new();
        match &self.user_values {
            None => {
                assert(self.spec_values() =~= Seq::empty());
            },
            Some(entries) => {
                let ghost values = self.spec_values();
                let n = entries.len();
                let mut i: usize = 0;
                while i < n
                    invariant
                        n == entries@.len(),
                        values == self.spec_values(),
                        entries@ == self.spec_entries(),
                        values.len() == n,
                        i <= n,
                        result@.len() == values_of_kind::<AnyNativeUserValue, T>(
                            values.take(i as int),
                        ).len(),
                        forall|j: int|
                            0 <= j < result@.len() ==> *result@[j] == values_of_kind::<
                                AnyNativeUserValue,
                                T,
                            >(values.take(i as int))[j],
                    decreases n - i,
                {
                    proof {
                        lemma_values_of_kind_take::<AnyNativeUserValue, T>(values, i as int);
                    }
                    match T::from_any_ref(&entries[i].0) {
                        Some(v) => result.push(v),
                        None => {},
                    }
                    i = i + 1;
                }
                assert(values.take(n as int) =~= values);
            },
        }
        result
    }

    /// Where the user already holds `value`, set the time of its first occurrence to now and
    /// return the time it had.
    fn update_time_if_duplicate<T: NativeUserValue>(&mut self, value: &T) -> (r: Option<
        chrono::NaiveDateTime,
    >)
        ensures
            r is Some <==> old(self).spec_values().contains(value.spec_into_any()),
            final(self).spec_values() == old(self).spec_values(),
            final(self).spec_fid() == old(self).spec_fid(),
            final(self).has_value_list() == old(self).has_value_list(),
    {
        let any = value.as_any();
        let mut entries = match self.user_values.take() {
            Some(entries) => entries,
            None => {
                return None;
            },
        };
        let ghost values = entries@.map_values(|e: (AnyNativeUserValue, chrono::NaiveDateTime)| e.0);
        let ghost orig = entries@;
        let n = entries.len();
        let mut i: usize = 0;
        while i < n
            invariant
                n == entries@.len(),
                entries@ == orig,
                values == entries@.map_values(|e: (AnyNativeUserValue, chrono::NaiveDateTime)| e.0),
                values == old(self).spec_values(),
                old(self).has_value_list(),
                self.fid == old(self).fid,
                any == value.spec_into_any(),
                i <= n,
                forall|j: int| 0 <= j < i ==> values[j] != any,
            decreases n - i,
        {
            if entries[i].0 == any {
                let old_time = entries[i].1;
                let entry = (entries[i].0, now());
                entries.set(i, entry);
                proof {
                    assert(entries@.map_values(|e: (AnyNativeUserValue, chrono::NaiveDateTime)| e.0)
                        =~= values);
                    assert(values[i as int] == any);
                }
                self.user_values = Some(entries);
                return Some(old_time);
            }
            i = i + 1;
        }
        proof {
            if values.contains(any) {
                let j = choose|j: int| 0 <= j < values.len() && values[j] == any;
                assert(values[j] != any);
            }
        }
        self.user_values = Some(entries);
        None
    }

    /// Add `value`: where the user already holds it, only the time at which it was added is
    /// renewed; else it is added at the end, with the time now. Never fails.
    pub fn add_user_value<T: NativeUserValue>(&mut self, value: T) -> (r: Result<(), UserError>)
        ensures
            r is Ok,
            final(self).spec_fid() == old(self).spec_fid(),
            final(self).has_value_list() == (old(self).has_value_list()
                || !old(self).spec_values().contains(value.spec_into_any())),
            old(self).spec_values().contains(value.spec_into_any()) ==> final(self).spec_values()
                == old(self).spec_values(),
            !old(self).spec_values().contains(value.spec_into_any()) ==> final(self).spec_values()
                == old(self).spec_values().push(value.spec_into_any()),
            final(self).spec_values() == added(old(self).spec_values(), value.spec_into_any()),
    {
        if self.update_time_if_duplicate(&value).is_some() {
            return Ok(());
        }
        let any_user_value = value.into_any();
        let ghost before = self.spec_entries();
        match self.user_values.take() {
            Some(mut entries) => {
                entries.push((any_user_value, now()));
                self.user_values = Some(entries);
            },
            None => {
                self.user_values = Some(vec![(any_user_value, now())]);
            },
        }
        assert(self.spec_values() =~= old(self).spec_values().push(any_user_value));
        Ok(())
    }

    /// Add `value` unless it collides with a value of its kind that the user holds; see
    /// [`User::add_user_value`]. A user whose values of a kind are only added this way never
    /// holds two of them that collide.
    pub fn try_add_user_value<T: NativeUserValue + Collidable>(&mut self, value: T) -> (r: Result<
        (),
        UserError,
    >)
        ensures
            r is Ok <==> collides_with_none(old(self).kind::<T>(), value),
            r is Err ==> r == Err::<(), UserError>(UserError::CollisionError) && *final(self)
                == *old(self),
            final(self).spec_fid() == old(self).spec_fid(),
            r is Ok && old(self).spec_values().contains(value.spec_into_any())
                ==> final(self).spec_values() == old(self).spec_values(),
            r is Ok && !old(self).spec_values().contains(value.spec_into_any())
                ==> final(self).spec_values() == old(self).spec_values().push(value.spec_into_any()),
            collision_free(old(self).kind::<T>()) && T::spec_from_any(value.spec_into_any())
                == Some(value) ==> collision_free(final(self).kind::<T>()),
    {
        let kinds = self.user_values_of_kind::<T>();
        let n = kinds.len();
        let mut i: usize = 0;
        while i < n
            invariant
                n == kinds@.len(),
                n == old(self).kind::<T>().len(),
                forall|j: int| 0 <= j < n ==> *kinds@[j] == old(self).kind::<T>()[j],
                *self == *old(self),
                i <= n,
                forall|j: int| 0 <= j < i ==> !(#[trigger] old(self).kind::<T>()[j]).spec_is_collision(&value),
            decreases n - i,
        {
            if kinds[i].is_collision(&value) {
                return Err(UserError::CollisionError);
            }
            i = i + 1;
        }
        let ghost before = old(self).spec_values();
        let r = self.add_user_value(value);
        proof {
            if !before.contains(value.spec_into_any()) && collision_free(old(self).kind::<T>())
                && T::spec_from_any(value.spec_into_any()) == Some(value) {
                crate::user_store::lemma_try_add_keeps_collision_free::<AnyNativeUserValue, T>(
                    before,
                    value,
                );
            }
        }
        r
    }
}

/// `values` with `value` added at the end, unless it holds it already.
pub open spec fn added(values: Seq<AnyNativeUserValue>, value: AnyNativeUserValue) -> Seq<
    AnyNativeUserValue,
> {
    if values.contains(value) {
        values
    } else {
        values.push(value)
    }
}

/// Adding a value twice leaves the values as adding it once does: the second
/// [`User::add_user_value`] of a value stores nothing new.
pub proof fn lemma_add_twice(values: Seq<AnyNativeUserValue>, value: AnyNativeUserValue)
    ensures
        added(added(values, value), value) == added(values, value),
{
    if !values.contains(value) {
        assert(values.push(value)[values.len() as int] == value);
    }
}

/// Adding again a spam update that a user holds, whose spam updates are free of collisions, is
/// no collision: [`UserStoreWithNativeUserValue::try_add_user_value`] of the same label read a
/// second time succeeds.
pub proof fn lemma_readding_a_held_update(
    held: Seq<crate::user_value::DatedSpamUpdate>,
    v: crate::user_value::DatedSpamUpdate,
)
    requires
        collision_free(held),
        held.contains(v),
    ensures
        collides_with_none(held, v),
{
    let j = choose|j: int| 0 <= j < held.len() && held[j] == v;
    assert forall|i: int| 0 <= i < held.len() implies !(#[trigger] held[i]).spec_is_collision(&v) by {
        crate::user_value::lemma_spam_update_collisions(held[i], v);
        if i < j {
            assert(!held[i].spec_is_collision(&held[j]));
        } else if j < i {
            assert(!held[j].spec_is_collision(&held[i]));
        }
    }
}

} // verus!
