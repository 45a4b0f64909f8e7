//! The kinds of values that can be stored for a user, and the traits that relate them.
use crate::cast_type::CastType;
use crate::dated::Dated;
use crate::follow_count::FollowCount;
use crate::spam_score::{SpamScore, SpamUpdate};
use vstd::prelude::*;

verus! {

/// A type that can hold every kind of [`UserValue`] that one store keeps, one at a time.
pub trait AnyUserValue: Sized {
}

/// A data point related to a user, which a store keeps as its [`AnyUserValue`] `T`.
pub trait UserValue<T: AnyUserValue>: Sized {
    /// The stored form of the value.
    spec fn spec_into_any(self) -> T;

    /// The value of this kind that a stored value holds, if it holds one.
    spec fn spec_from_any(any: T) -> Option<Self>;

    fn into_any(self) -> (r: T)
        ensures
            r == self.spec_into_any(),
    ;

    fn as_any(&self) -> (r: T)
        ensures
            r == self.spec_into_any(),
    ;

    fn from_any(any: T) -> (r: Option<Self>)
        ensures
            r == Self::spec_from_any(any),
    ;

    fn from_any_ref(any: &T) -> (r: Option<&Self>)
        ensures
            r is Some <==> Self::spec_from_any(*any) is Some,
            r matches Some(v) ==> Self::spec_from_any(*any) == Some(*v),
    ;
}

/// A value that collides with another of its kind: the two contradict each other.
pub trait Collidable {
    spec fn spec_is_collision(&self, other: &Self) -> bool;

    fn is_collision(&self, other: &Self) -> (r: bool)
        ensures
            r == self.spec_is_collision(other),
    ;
}

impl<'b, T: Collidable> Collidable for &'b T {
    open spec fn spec_is_collision(&self, other: &Self) -> bool {
        (**self).spec_is_collision(*other)
    }

    fn is_collision(&self, other: &Self) -> (r: bool) {
        (**self).is_collision(*other)
    }
}

/// Associate a tag (such as a fid or a date) with a value that stays meaningful without it.
pub trait HasTag<T, Inner> {
    spec fn spec_tag(&self) -> T;

    spec fn spec_inner(&self) -> Inner;

    fn tag(&self) -> (r: T)
        ensures
            r == self.spec_tag(),
    ;

    fn untag(self) -> (r: (T, Inner))
        ensures
            r.0 == self.spec_tag(),
            r.1 == self.spec_inner(),
    ;
}

/// Every kind of value that a user of the library keeps.
#[derive(Debug, Clone, Copy, PartialEq, Eq, Structural, Hash)]
#[non_exhaustive]
pub enum AnyNativeUserValue {
    DatedSpamUpdate(Dated<SpamUpdate>),
    SpamUpdate(SpamUpdate),
    SpamScore(SpamScore),
    DatedCastType(Dated<CastType>),
    FollowCount(FollowCount),
}

impl AnyUserValue for AnyNativeUserValue {
}

/// A kind of value that a user of the library keeps as an [`AnyNativeUserValue`].
pub trait NativeUserValue: UserValue<AnyNativeUserValue> {
    /// Whether `self` collides with `other`, a value of its kind: for a kind that is
    /// [`Collidable`], as that trait says; values of the other kinds never collide.
    spec fn spec_collides(&self, other: &Self) -> bool;

    fn collides(&self, other: &Self) -> (r: bool)
        ensures
            r == self.spec_collides(other),
    ;
}

impl AnyNativeUserValue {
    /// The value of kind `T` that this holds, if any.
    pub fn specify<T: NativeUserValue>(self) -> (r: Option<T>)
        ensures
            r == T::spec_from_any(self),
    {
        T::from_any(self)
    }

    /// A reference to the value of kind `T` that this holds, if any.
    pub fn specify_ref<T: NativeUserValue>(&self) -> (r: Option<&T>)
        ensures
            r is Some <==> T::spec_from_any(*self) is Some,
            r matches Some(v) ==> T::spec_from_any(*self) == Some(*v),
    {
        T::from_any_ref(self)
    }
}

/// A spam score with the date it was given.
pub type DatedSpamUpdate = Dated<SpamUpdate>;

impl UserValue<AnyNativeUserValue> for Dated<SpamUpdate> {
    open spec fn spec_into_any(self) -> AnyNativeUserValue {
        AnyNativeUserValue::DatedSpamUpdate(self)
    }

    open spec fn spec_from_any(any: AnyNativeUserValue) -> Option<Self> {
        match any {
            AnyNativeUserValue::DatedSpamUpdate(x) => Some(x),
            _ => None,
        }
    }

    fn into_any(self) -> (r: AnyNativeUserValue) {
        AnyNativeUserValue::DatedSpamUpdate(self)
    }

    fn as_any(&self) -> (r: AnyNativeUserValue) {
        AnyNativeUserValue::DatedSpamUpdate(*self)
    }

    fn from_any(any: AnyNativeUserValue) -> (r: Option<Self>) {
        match any {
            AnyNativeUserValue::DatedSpamUpdate(x) => Some(x),
            _ => None,
        }
    }

    fn from_any_ref(any: &AnyNativeUserValue) -> (r: Option<&Self>) {
        match any {
            AnyNativeUserValue::DatedSpamUpdate(x) => Some(x),
            _ => None,
        }
    }
}

impl NativeUserValue for Dated<SpamUpdate> {
    open spec fn spec_collides(&self, other: &Self) -> bool {
        self.spec_is_collision(other)
    }

    fn collides(&self, other: &Self) -> (r: bool) {
        self.is_collision(other)
    }
}

impl Collidable for Dated<SpamUpdate> {
    /// Two spam updates collide when they give different scores at the same date.
    open spec fn spec_is_collision(&self, other: &Self) -> bool {
        self.spec_date() == other.spec_date() && self.spec_inner().spec_score()
            != other.spec_inner().spec_score()
    }

    fn is_collision(&self, other: &Self) -> (r: bool) {
        self.date() == other.date() && self.inner().score() != other.inner().score()
    }
}

/// Stores the update as its bare spam score: the update itself is not kept.
impl UserValue<AnyNativeUserValue> for SpamUpdate {
    open spec fn spec_into_any(self) -> AnyNativeUserValue {
        AnyNativeUserValue::SpamScore(self.spec_score())
    }

    open spec fn spec_from_any(any: AnyNativeUserValue) -> Option<Self> {
        match any {
            AnyNativeUserValue::SpamUpdate(x) => Some(x),
            _ => None,
        }
    }

    fn into_any(self) -> (r: AnyNativeUserValue) {
        AnyNativeUserValue::SpamScore(self.score())
    }

    fn as_any(&self) -> (r: AnyNativeUserValue) {
        AnyNativeUserValue::SpamScore(self.score())
    }

    fn from_any(any: AnyNativeUserValue) -> (r: Option<Self>) {
        match any {
            AnyNativeUserValue::SpamUpdate(x) => Some(x),
            _ => None,
        }
    }

    fn from_any_ref(any: &AnyNativeUserValue) -> (r: Option<&Self>) {
        match any {
            AnyNativeUserValue::SpamUpdate(x) => Some(x),
            _ => None,
        }
    }
}

impl NativeUserValue for SpamUpdate {
    open spec fn spec_collides(&self, other: &Self) -> bool {
        false
    }

    fn collides(&self, other: &Self) -> (r: bool) {
        false
    }
}

impl UserValue<AnyNativeUserValue> for Dated<CastType> {
    open spec fn spec_into_any(self) -> AnyNativeUserValue {
        AnyNativeUserValue::DatedCastType(self)
    }

    open spec fn spec_from_any(any: AnyNativeUserValue) -> Option<Self> {
        match any {
            AnyNativeUserValue::DatedCastType(x) => Some(x),
            _ => None,
        }
    }

    fn into_any(self) -> (r: AnyNativeUserValue) {
        AnyNativeUserValue::DatedCastType(self)
    }

    fn as_any(&self) -> (r: AnyNativeUserValue) {
        AnyNativeUserValue::DatedCastType(*self)
    }

    fn from_any(any: AnyNativeUserValue) -> (r: Option<Self>) {
        match any {
            AnyNativeUserValue::DatedCastType(x) => Some(x),
            _ => None,
        }
    }

    fn from_any_ref(any: &AnyNativeUserValue) -> (r: Option<&Self>) {
        match any {
            AnyNativeUserValue::DatedCastType(x) => Some(x),
            _ => None,
        }
    }
}

impl NativeUserValue for Dated<CastType> {
    open spec fn spec_collides(&self, other: &Self) -> bool {
        false
    }

    fn collides(&self, other: &Self) -> (r: bool) {
        false
    }
}

impl UserValue<AnyNativeUserValue> for FollowCount {
    open spec fn spec_into_any(self) -> AnyNativeUserValue {
        AnyNativeUserValue::FollowCount(self)
    }

    open spec fn spec_from_any(any: AnyNativeUserValue) -> Option<Self> {
        match any {
            AnyNativeUserValue::FollowCount(x) => Some(x),
            _ => None,
        }
    }

    fn into_any(self) -> (r: AnyNativeUserValue) {
        AnyNativeUserValue::FollowCount(self)
    }

    fn as_any(&self) -> (r: AnyNativeUserValue) {
        AnyNativeUserValue::FollowCount(*self)
    }

    fn from_any(any: AnyNativeUserValue) -> (r: Option<Self>) {
        match any {
            AnyNativeUserValue::FollowCount(x) => Some(x),
            _ => None,
        }
    }

    fn from_any_ref(any: &AnyNativeUserValue) -> (r: Option<&Self>) {
        match any {
            AnyNativeUserValue::FollowCount(x) => Some(x),
            _ => None,
        }
    }
}

impl NativeUserValue for FollowCount {
    open spec fn spec_collides(&self, other: &Self) -> bool {
        false
    }

    fn collides(&self, other: &Self) -> (r: bool) {
        false
    }
}

/// The values of kind `S` among `values`, in order.
pub open spec fn values_of_kind<T: AnyUserValue, S: UserValue<T>>(values: Seq<T>) -> Seq<S>
    decreases values.len(),
{
    if values.len() == 0 {
        Seq::empty()
    } else {
        let rest = values_of_kind::<T, S>(values.drop_last());
        match S::spec_from_any(values.last()) {
            Some(v) => rest.push(v),
            None => rest,
        }
    }
}

/// Dated spam updates, dated casts and follow counts are stored as themselves: read back from
/// its stored form, a value is the value. (A spam update without a date is stored as its spam
/// score, which reads back as no spam update.)
pub proof fn lemma_stored_as_themselves(a: Dated<SpamUpdate>, b: Dated<CastType>, c: FollowCount)
    ensures
        <Dated<SpamUpdate> as UserValue<AnyNativeUserValue>>::spec_from_any(a.spec_into_any())
            == Some(a),
        <Dated<CastType> as UserValue<AnyNativeUserValue>>::spec_from_any(b.spec_into_any())
            == Some(b),
        <FollowCount as UserValue<AnyNativeUserValue>>::spec_from_any(c.spec_into_any()) == Some(
            c,
        ),
{
}

/// What makes two spam updates contradict each other: an update never collides with itself
/// nor with an equal update; updates at different dates never collide; updates at one date
/// with different scores do; and `a` collides with `b` exactly when `b` collides with `a`.
pub proof fn lemma_spam_update_collisions(a: Dated<SpamUpdate>, b: Dated<SpamUpdate>)
    ensures
        !a.spec_is_collision(&a),
        a == b ==> !a.spec_is_collision(&b),
        a.spec_date() != b.spec_date() ==> !a.spec_is_collision(&b),
        a.spec_date() == b.spec_date() && a.spec_inner().spec_score() != b.spec_inner().spec_score()
            ==> a.spec_is_collision(&b),
        a.spec_is_collision(&b) == b.spec_is_collision(&a),
        a.spec_collides(&b) == a.spec_is_collision(&b),
{
}

} // verus!
