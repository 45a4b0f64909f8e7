//! The values stored for one user.
use crate::fid::Fid;
use crate::user_value::{values_of_kind, AnyUserValue, Collidable, UserValue};
use vstd::prelude::*;
use vstd::std_specs::convert::FromSpecImpl;

verus! {

/// Error of a value that collides with a value the user already has.
#[derive(Clone, Copy, Debug, PartialEq, Eq, Structural)]
#[non_exhaustive]
pub enum UserError {
    CollisionError,
}

/// Whether no value in `values` collides with `new`.
pub open spec fn collides_with_none<S: Collidable>(values: Seq<S>, new: S) -> bool {
    forall|i: int| 0 <= i < values.len() ==> !(#[trigger] values[i]).spec_is_collision(&new)
}

/// Whether no two values of `values` collide.
pub open spec fn collision_free<S: Collidable>(values: Seq<S>) -> bool {
    forall|i: int, j: int|
        #![trigger values[i], values[j]]
        0 <= i < j < values.len() ==> !values[i].spec_is_collision(&values[j])
}

/// The fid of a user and the values stored for it, in the order they were added.
#[derive(Debug, PartialEq, Eq, Clone, Hash)]
pub struct UserStore<T: AnyUserValue> {
    fid: Fid,
    values: Vec<T>,
}

/// One more value of `values_of_kind` per value of the kind at the end of the sequence.
pub proof fn lemma_values_of_kind_take<T: AnyUserValue, S: UserValue<T>>(values: Seq<T>, i: int)
    requires
        0 <= i < values.len(),
    ensures
        values_of_kind::<T, S>(values.take(i + 1)) == match S::spec_from_any(values[i]) {
            Some(v) => values_of_kind::<T, S>(values.take(i)).push(v),
            None => values_of_kind::<T, S>(values.take(i)),
        },
{
    assert(values.take(i + 1).drop_last() =~= values.take(i));
}

/// Adding a value at the end extends the values of its kind by it.
pub proof fn lemma_values_of_kind_push<T: AnyUserValue, S: UserValue<T>>(values: Seq<T>, v: T)
    ensures
        values_of_kind::<T, S>(values.push(v)) == match S::spec_from_any(v) {
            Some(x) => values_of_kind::<T, S>(values).push(x),
            None => values_of_kind::<T, S>(values),
        },
{
    assert(values.push(v).drop_last() =~= values);
}

impl<T: AnyUserValue> UserStore<T> {
    pub closed spec fn spec_fid(self) -> Fid {
        self.fid
    }

    /// The values stored, in the order they were added.
    pub closed spec fn spec_values(self) -> Seq<T> {
        self.values@
    }

    /// Whether the user has at least one value of kind `S`.
    pub fn has<S: UserValue<T>>(&self) -> (r: bool)
        ensures
            r == (values_of_kind::<T, S>(self.spec_values()).len() > 0),
    {
        let n = self.values.len();
        let mut i: usize = 0;
        while i < n
            invariant
                n == self.values@.len(),
                i <= n,
                values_of_kind::<T, S>(self.values@.take(i as int)).len() == 0,
            decreases n - i,
        {
            proof {
                lemma_values_of_kind_take::<T, S>(self.values@, i as int);
            }
            if S::from_any_ref(&self.values[i]).is_some() {
                proof {
                    self.lemma_prefix_of_kinds::<S>(i as int + 1);
                }
                return true;
            }
            i = i + 1;
        }
        assert(self.values@.take(n as int) =~= self.values@);
        false
    }

    /// References to the values of kind `S`, in the order they were added.
    pub fn user_values_of_kind<'a, S: UserValue<T>>(&'a self) -> (r: Vec<&'a S>)
        ensures
            r@.len() == values_of_kind::<T, S>(self.spec_values()).len(),
            forall|j: int|
                0 <= j < r@.len() ==> *r@[j] == values_of_kind::<T, S>(self.spec_values())[j],
    {
        let n = self.values.len();
        let mut result: Vec<&'a S> = Vec::new();
        let mut i: usize = 0;
        while i < n
            invariant
                n == self.values@.len(),
                i <= n,
                result@.len() == values_of_kind::<T, S>(self.values@.take(i as int)).len(),
                forall|j: int|
                    0 <= j < result@.len() ==> *result@[j] == values_of_kind::<T, S>(
                        self.values@.take(i as int),
                    )[j],
            decreases n - i,
        {
            proof {
                lemma_values_of_kind_take::<T, S>(self.values@, i as int);
            }
            match S::from_any_ref(&self.values[i]) {
                Some(v) => result.push(v),
                None => {},
            }
            i = i + 1;
        }
        assert(self.values@.take(n as int) =~= self.values@);
        result
    }

    /// Add `new` unless it collides with a value of its kind that the user has.
    pub fn try_add_user_value<S: UserValue<T> + Collidable>(&mut self, new: S) -> (r: Result<
        (),
        UserError,
    >)
        ensures
            r is Ok <==> collides_with_none(values_of_kind::<T, S>(old(self).spec_values()), new),
            final(self).spec_fid() == old(self).spec_fid(),
            r is Ok ==> final(self).spec_values() == old(self).spec_values().push(
                new.spec_into_any(),
            ),
            r is Err ==> final(self).spec_values() == old(self).spec_values(),
    {
        let n = self.values.len();
        let mut i: usize = 0;
        while i < n
            invariant
                n == self.values@.len(),
                i <= n,
                collides_with_none(values_of_kind::<T, S>(self.values@.take(i as int)), new),
            decreases n - i,
        {
            proof {
                lemma_values_of_kind_take::<T, S>(self.values@, i as int);
            }
            match S::from_any_ref(&self.values[i]) {
                Some(v) => {
                    if v.is_collision(&new) {
                        proof {
                            let kinds = values_of_kind::<T, S>(self.values@);
                            let before = values_of_kind::<T, S>(self.values@.take(i as int));
                            let k = before.len() as int;
                            self.lemma_prefix_of_kinds::<S>(i as int + 1);
                            assert(kinds[k] == *v);
                            assert(!collides_with_none(kinds, new));
                        }
                        return Err(UserError::CollisionError);
                    }
                },
                None => {},
            }
            i = i + 1;
        }
        assert(self.values@.take(n as int) =~= self.values@);
        self.values.push(new.into_any());
        Ok(())
    }

    /// The values of kind `S` of the first `i` values start the values of kind `S` of all.
    proof fn lemma_prefix_of_kinds<S: UserValue<T>>(&self, i: int)
        requires
            0 <= i <= self.values@.len(),
        ensures
            values_of_kind::<T, S>(self.values@.take(i)).len() <= values_of_kind::<T, S>(
                self.values@,
            ).len(),
            forall|j: int|
                0 <= j < values_of_kind::<T, S>(self.values@.take(i)).len() ==> values_of_kind::<
                    T,
                    S,
                >(self.values@.take(i))[j] == values_of_kind::<T, S>(self.values@)[j],
        decreases self.values@.len() - i,
    {
        if i == self.values@.len() {
            assert(self.values@.take(i) =~= self.values@);
        } else {
            lemma_values_of_kind_take::<T, S>(self.values@, i);
            self.lemma_prefix_of_kinds::<S>(i + 1);
        }
    }

    /// Add `new` without checking for collisions.
    pub fn add_user_value<S: UserValue<T>>(&mut self, new: S)
        ensures
            final(self).spec_fid() == old(self).spec_fid(),
            final(self).spec_values() == old(self).spec_values().push(new.spec_into_any()),
    {
        self.values.push(new.into_any());
    }

    /// A store for `fid` holding `values`.
    pub fn from_generic_user_values(fid: Fid, values: Vec<T>) -> (r: Self)
        ensures
            r.spec_fid() == fid,
            r.spec_values() == values@,
    {
        UserStore { fid, values }
    }

    pub fn fid(&self) -> (r: Fid)
        ensures
            r == self.spec_fid(),
    {
        self.fid
    }

    /// All values stored, in the order they were added.
    pub fn all_user_values(&self) -> (r: &Vec<T>)
        ensures
            r@ == self.spec_values(),
    {
        &self.values
    }
}

impl<T: AnyUserValue> From<Fid> for UserStore<T> {
    fn from(value: Fid) -> (r: Self)
        ensures
            r.spec_fid() == value,
            r.spec_values().len() == 0,
    {
        UserStore { fid: value, values: Vec::new() }
    }
}

impl<T: AnyUserValue> FromSpecImpl<Fid> for UserStore<T> {
    /// The conversion is stated by the `ensures` of `from` itself.
    open spec fn obeys_from_spec() -> bool {
        false
    }

    open spec fn from_spec(v: Fid) -> Self {
        arbitrary()
    }
}

/// A user whose values of a kind are added with `try_add_user_value` never holds two values of
/// that kind that collide: a value that is added collides with none of them, so the values of
/// the kind stay free of collisions. (This holds for a kind whose values are stored as
/// themselves: a value of the kind read back from its stored form is the value.)
pub proof fn lemma_try_add_keeps_collision_free<T: AnyUserValue, S: UserValue<T> + Collidable>(
    values: Seq<T>,
    new: S,
)
    requires
        collision_free(values_of_kind::<T, S>(values)),
        collides_with_none(values_of_kind::<T, S>(values), new),
        S::spec_from_any(new.spec_into_any()) == Some(new),
    ensures
        collision_free(values_of_kind::<T, S>(values.push(new.spec_into_any()))),
{
    lemma_values_of_kind_push::<T, S>(values, new.spec_into_any());
    let before = values_of_kind::<T, S>(values);
    let after = values_of_kind::<T, S>(values.push(new.spec_into_any()));
    assert(after == before.push(new));
    assert forall|i: int, j: int|
        #![trigger after[i], after[j]]
        0 <= i < j < after.len() implies !after[i].spec_is_collision(&after[j]) by {
        assert(after[i] == before[i]);
        if j < before.len() {
            assert(after[j] == before[j]);
        } else {
            assert(after[j] == new);
        }
    }
}

} // verus!
