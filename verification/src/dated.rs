//! A value together with the date it belongs to.
use crate::date::Date;
use vstd::prelude::*;
use vstd::std_specs::convert::FromSpec;
use vstd::std_specs::convert::FromSpecImpl;
use vstd::std_specs::convert::TryFromSpec;

verus! {

/// A value of type `T` with a date attached.
#[derive(Debug, Clone, Copy, PartialEq, Eq, Structural, Hash)]
pub struct Dated<T> {
    inner: T,
    date: Date,
}

impl<T> Dated<T> {
    /// The date of the value.
    pub closed spec fn spec_date(self) -> Date {
        self.date
    }

    /// The value without its date.
    pub closed spec fn spec_inner(self) -> T {
        self.inner
    }

    /// Two dated values are equal when their values and dates are.
    pub proof fn lemma_ext_equal(a: Self, b: Self)
        requires
            a.spec_inner() == b.spec_inner(),
            a.spec_date() == b.spec_date(),
        ensures
            a == b,
    {
    }

    /// Attach `date` to `inner`.
    pub fn new(inner: T, date: Date) -> (r: Self)
        ensures
            r.spec_inner() == inner,
            r.spec_date() == date,
    {
        Dated { inner, date }
    }

    /// The date of the value.
    pub fn date(&self) -> (r: Date)
        ensures
            r == self.spec_date(),
    {
        self.date
    }

    /// The value, without its date.
    pub fn into_inner(self) -> (r: T)
        ensures
            r == self.spec_inner(),
    {
        self.inner
    }

    /// A reference to the value.
    pub fn inner(&self) -> (r: &T)
        ensures
            *r == self.spec_inner(),
    {
        &self.inner
    }

    /// The value converted by its `From` impl, with the same date.
    pub fn map_into<S: From<T>>(self) -> (r: Dated<S>)
        ensures
            r.spec_date() == self.spec_date(),
            <S as FromSpec<T>>::obeys_from_spec() ==> r.spec_inner() == <S as FromSpec<T>>::from_spec(
                self.spec_inner(),
            ),
    {
        Dated { date: self.date, inner: S::from(self.inner) }
    }

    /// The value converted by its `TryFrom` impl, with the same date, or the error of the
    /// conversion.
    pub fn try_map_into<S: TryFrom<T>>(self) -> (r: Result<Dated<S>, <S as TryFrom<T>>::Error>)
        ensures
            r matches Ok(d) ==> d.spec_date() == self.spec_date(),
            <S as TryFromSpec<T>>::obeys_try_from_spec() ==> match <S as TryFromSpec<
                T,
            >>::try_from_spec(self.spec_inner()) {
                Ok(v) => r matches Ok(d) && d.spec_inner() == v,
                Err(e) => r == Err::<Dated<S>, <S as TryFrom<T>>::Error>(e),
            },
    {
        let date = self.date;
        match S::try_from(self.inner) {
            Ok(inner) => Ok(Dated { inner, date }),
            Err(e) => Err(e),
        }
    }

    /// Make a dated value from `arg` converted by `T`'s `From` impl.
    pub fn from<S>(date: Date, arg: S) -> (r: Self) where T: From<S>
        ensures
            r.spec_date() == date,
            <T as FromSpec<S>>::obeys_from_spec() ==> r.spec_inner() == <T as FromSpec<S>>::from_spec(arg),
    {
        Dated { inner: T::from(arg), date }
    }
}

impl<T> From<(T, Date)> for Dated<T> {
    fn from(value: (T, Date)) -> (r: Self) {
        Dated { inner: value.0, date: value.1 }
    }
}

impl<T> FromSpecImpl<(T, Date)> for Dated<T> {
    open spec fn obeys_from_spec() -> bool {
        true
    }

    closed spec fn from_spec(v: (T, Date)) -> Self {
        Dated { inner: v.0, date: v.1 }
    }
}

/// What the `From<(T, Date)>` impl of [`Dated`] builds.
pub proof fn lemma_dated_from_pair<T>(v: (T, Date))
    ensures
        <Dated<T> as FromSpec<(T, Date)>>::from_spec(v).spec_inner() == v.0,
        <Dated<T> as FromSpec<(T, Date)>>::from_spec(v).spec_date() == v.1,
{
}

impl<T> core::ops::Deref for Dated<T> {
    type Target = T;

    /// The value without its date.
    fn deref(&self) -> (r: &T)
        ensures
            *r == self.spec_inner(),
    {
        &self.inner
    }
}

} // verus!
