//! A user with at least one spam update, and what its updates say.
use crate::date::Date;
use crate::fid::Fid;
use crate::is_user::IsUser;
use crate::spam_score::SpamScore;
use crate::user::UserStoreWithNativeUserValue;
use crate::user_value::{values_of_kind, AnyNativeUserValue, DatedSpamUpdate};
use vstd::prelude::*;

verus! {

/// The spam updates among `values`, in order.
pub open spec fn spam_updates_of(values: Seq<AnyNativeUserValue>) -> Seq<DatedSpamUpdate> {
    values_of_kind::<AnyNativeUserValue, DatedSpamUpdate>(values)
}

/// Whether a user holds at least one spam update.
pub open spec fn has_spam_data(user: (Fid, Seq<AnyNativeUserValue>)) -> bool {
    spam_updates_of(user.1).len() > 0
}

/// The day number of the date of an update.
pub open spec fn day_of(u: DatedSpamUpdate) -> int {
    u.spec_date().day_number()
}

/// The update that counts at day `day`: among the updates at or before it, one with the latest
/// date, and of those the last one.
pub open spec fn latest_update_at(updates: Seq<DatedSpamUpdate>, day: int) -> Option<
    DatedSpamUpdate,
>
    decreases updates.len(),
{
    if updates.len() == 0 {
        None
    } else {
        let rest = latest_update_at(updates.drop_last(), day);
        let x = updates.last();
        if day_of(x) <= day && (rest is None || day_of(rest.unwrap()) <= day_of(x)) {
            Some(x)
        } else {
            rest
        }
    }
}

/// The spam score at day `day`: that of the update that counts then, if there is one.
pub open spec fn spam_score_at(updates: Seq<DatedSpamUpdate>, day: int) -> Option<SpamScore> {
    match latest_update_at(updates, day) {
        Some(u) => Some(u.spec_inner().spec_score()),
        None => None,
    }
}

/// The update with the latest date, and of those the last one.
pub open spec fn latest_update(updates: Seq<DatedSpamUpdate>) -> Option<DatedSpamUpdate>
    decreases updates.len(),
{
    if updates.len() == 0 {
        None
    } else {
        let rest = latest_update(updates.drop_last());
        let x = updates.last();
        if rest is None || day_of(rest.unwrap()) <= day_of(x) {
            Some(x)
        } else {
            rest
        }
    }
}

/// The update with the earliest date, and of those the first one.
pub open spec fn earliest_update(updates: Seq<DatedSpamUpdate>) -> Option<DatedSpamUpdate>
    decreases updates.len(),
{
    if updates.len() == 0 {
        None
    } else {
        let rest = earliest_update(updates.drop_last());
        let x = updates.last();
        if rest is None || day_of(x) < day_of(rest.unwrap()) {
            Some(x)
        } else {
            rest
        }
    }
}

/// The earliest day among the updates, if there are any.
pub open spec fn min_day(updates: Seq<DatedSpamUpdate>) -> Option<int> {
    match earliest_update(updates) {
        Some(u) => Some(day_of(u)),
        None => None,
    }
}

/// The latest day among the updates, if there are any.
pub open spec fn max_day(updates: Seq<DatedSpamUpdate>) -> Option<int> {
    match latest_update(updates) {
        Some(u) => Some(day_of(u)),
        None => None,
    }
}

/// The earliest update is one of the updates, and none is earlier.
pub proof fn lemma_earliest_update(updates: Seq<DatedSpamUpdate>)
    ensures
        earliest_update(updates) is Some <==> updates.len() > 0,
        earliest_update(updates) matches Some(e) ==> updates.contains(e) && forall|i: int|
            0 <= i < updates.len() ==> day_of(e) <= #[trigger] day_of(updates[i]),
    decreases updates.len(),
{
    if updates.len() > 0 {
        let prefix = updates.drop_last();
        lemma_earliest_update(prefix);
        let rest = earliest_update(prefix);
        let e = earliest_update(updates).unwrap();
        let last = updates[updates.len() - 1];
        if rest is Some {
            let j = choose|j: int| 0 <= j < prefix.len() && prefix[j] == rest.unwrap();
            assert(updates[j] == rest.unwrap());
        }
        assert(updates[updates.len() - 1] == last);
        assert forall|i: int| 0 <= i < updates.len() implies day_of(e) <= #[trigger] day_of(updates[i]) by {
            if i < updates.len() - 1 {
                assert(updates[i] == prefix[i]);
                assert(day_of(rest.unwrap()) <= day_of(prefix[i]));
            }
        }
    }
}

/// The latest update is one of the updates, and none is later.
pub proof fn lemma_latest_update(updates: Seq<DatedSpamUpdate>)
    ensures
        latest_update(updates) is Some <==> updates.len() > 0,
        latest_update(updates) matches Some(e) ==> updates.contains(e) && forall|i: int|
            0 <= i < updates.len() ==> #[trigger] day_of(updates[i]) <= day_of(e),
    decreases updates.len(),
{
    if updates.len() > 0 {
        let prefix = updates.drop_last();
        lemma_latest_update(prefix);
        let rest = latest_update(prefix);
        let e = latest_update(updates).unwrap();
        let last = updates[updates.len() - 1];
        if rest is Some {
            let j = choose|j: int| 0 <= j < prefix.len() && prefix[j] == rest.unwrap();
            assert(updates[j] == rest.unwrap());
        }
        assert(updates[updates.len() - 1] == last);
        assert forall|i: int| 0 <= i < updates.len() implies #[trigger] day_of(updates[i]) <= day_of(e) by {
            if i < updates.len() - 1 {
                assert(updates[i] == prefix[i]);
                assert(day_of(prefix[i]) <= day_of(rest.unwrap()));
            }
        }
    }
}

/// An update counts at a day exactly when the earliest update is at or before it; the update
/// that counts is at or before the day and no update at or before the day is later.
pub proof fn lemma_latest_update_at(updates: Seq<DatedSpamUpdate>, day: int)
    ensures
        latest_update_at(updates, day) is Some <==> (min_day(updates) matches Some(m) && m <= day),
        latest_update_at(updates, day) matches Some(u) ==> updates.contains(u) && day_of(u) <= day
            && forall|i: int|
            0 <= i < updates.len() && day_of(updates[i]) <= day ==> #[trigger] day_of(updates[i])
                <= day_of(u),
    decreases updates.len(),
{
    lemma_earliest_update(updates);
    if updates.len() > 0 {
        let prefix = updates.drop_last();
        lemma_latest_update_at(prefix, day);
        lemma_earliest_update(prefix);
        let rest = latest_update_at(prefix, day);
        let last = updates[updates.len() - 1];
        assert(updates[updates.len() - 1] == last);
        if rest is Some {
            let j = choose|j: int| 0 <= j < prefix.len() && prefix[j] == rest.unwrap();
            assert(updates[j] == rest.unwrap());
        }
        let r = latest_update_at(updates, day);
        if r is Some {
            let u = r.unwrap();
            assert forall|i: int| 0 <= i < updates.len() && day_of(updates[i]) <= day implies #[trigger] day_of(updates[i])
                <= day_of(u) by {
                if i < updates.len() - 1 {
                    assert(updates[i] == prefix[i]);
                }
            }
        }
        // the earliest day of all is that of the prefix or of the last update
        if prefix.len() > 0 {
            let ep = earliest_update(prefix).unwrap();
            let jp = choose|j: int| 0 <= j < prefix.len() && prefix[j] == ep;
            assert(updates[jp] == ep);
        }
    }
}

/// A reference to a user that holds at least one spam update.
#[derive(Debug, Clone, Copy)]
pub struct UserWithSpamData<'a> {
    user: &'a UserStoreWithNativeUserValue,
}

/// Error of a conversion that the input does not allow.
#[derive(Debug, Clone, Copy, PartialEq, Eq, Structural)]
pub enum ConversionError {
    ConversionError,
}

impl<'a> UserWithSpamData<'a> {
    #[verifier::type_invariant]
    pub closed spec fn has_spam_updates(self) -> bool {
        has_spam_data(self.user@)
    }

    /// The spam user that refers to `user`.
    pub closed spec fn of(user: &'a UserStoreWithNativeUserValue) -> Self {
        UserWithSpamData { user }
    }

    /// The spam updates of the user, in the order they were added.
    pub open spec fn updates(self) -> Seq<DatedSpamUpdate> {
        spam_updates_of(self.spec_user()@.1)
    }

    pub closed spec fn spec_user(self) -> &'a UserStoreWithNativeUserValue {
        self.user
    }

    pub proof fn lemma_of(user: &'a UserStoreWithNativeUserValue)
        ensures
            Self::of(user).spec_user() == user,
    {
    }

    /// The spam user for `value`, if it has a spam update.
    pub fn try_from_user(value: &'a UserStoreWithNativeUserValue) -> (r: Result<
        Self,
        ConversionError,
    >)
        ensures
            r is Ok <==> has_spam_data(value@),
            r matches Ok(u) ==> u == Self::of(value),
            r matches Err(e) ==> e == ConversionError::ConversionError,
    {
        if value.has::<DatedSpamUpdate>() {
            Ok(UserWithSpamData { user: value })
        } else {
            Err(ConversionError::ConversionError)
        }
    }

    /// The spam score that counts at `date`, if the user has one then.
    pub fn spam_score_at_date(&self, date: Date) -> (r: Option<SpamScore>)
        ensures
            r == spam_score_at(self.updates(), date.day_number()),
    {
        let updates = self.dated_spam_updates();
        assert(updates@.map_values(|u: &DatedSpamUpdate| *u) =~= self.updates());
        spam_score_at_date_of(&updates, date)
    }

    /// The spam updates of the user, in the order they were added.
    pub fn dated_spam_updates(&self) -> (r: Vec<&'a DatedSpamUpdate>)
        ensures
            r@.len() == self.updates().len(),
            forall|j: int| 0 <= j < r@.len() ==> *r@[j] == self.updates()[j],
    {
        let user: &'a UserStoreWithNativeUserValue = self.user;
        user.user_values_of_kind::<DatedSpamUpdate>()
    }

    pub fn user(&self) -> (r: &'a UserStoreWithNativeUserValue)
        ensures
            r == self.spec_user(),
    {
        self.user
    }

    pub fn fid(&self) -> (r: Fid)
        ensures
            r == self.spec_user()@.0,
    {
        self.user.fid()
    }

    /// The update with the earliest date, the first of them if several share it.
    pub fn earliest_spam_update(&self) -> (r: DatedSpamUpdate)
        ensures
            Some(r) == earliest_update(self.updates()),
    {
        proof {
            use_type_invariant(self);
        }
        let updates = self.dated_spam_updates();
        let mut best: DatedSpamUpdate = *updates[0];
        let mut i: usize = 1;
        assert(updates@.len() > 0);
        proof {
            reveal_with_fuel(earliest_update, 2);
            assert(self.updates().take(1).drop_last() =~= Seq::empty());
        }
        while i < updates.len()
            invariant
                1 <= i <= updates@.len(),
                updates@.len() == self.updates().len(),
                forall|j: int| 0 <= j < updates@.len() ==> *updates@[j] == self.updates()[j],
                Some(best) == earliest_update(self.updates().take(i as int)),
            decreases updates@.len() - i,
        {
            let x = *updates[i];
            proof {
                assert(self.updates().take(i + 1).drop_last() =~= self.updates().take(i as int));
            }
            if x.date().is_before(&best.date()) {
                best = x;
            }
            i = i + 1;
        }
        proof {
            assert(self.updates().take(i as int) =~= self.updates());
        }
        best
    }

    /// The update with the latest date, the last of them if several share it.
    pub fn latest_spam_update(&self) -> (r: DatedSpamUpdate)
        ensures
            Some(r) == latest_update(self.updates()),
    {
        proof {
            use_type_invariant(self);
        }
        let updates = self.dated_spam_updates();
        let mut best: DatedSpamUpdate = *updates[0];
        let mut i: usize = 1;
        proof {
            reveal_with_fuel(latest_update, 2);
            assert(self.updates().take(1).drop_last() =~= Seq::empty());
        }
        while i < updates.len()
            invariant
                1 <= i <= updates@.len(),
                updates@.len() == self.updates().len(),
                forall|j: int| 0 <= j < updates@.len() ==> *updates@[j] == self.updates()[j],
                Some(best) == latest_update(self.updates().take(i as int)),
            decreases updates@.len() - i,
        {
            let x = *updates[i];
            proof {
                assert(self.updates().take(i + 1).drop_last() =~= self.updates().take(i as int));
            }
            if best.date().is_at_or_before(&x.date()) {
                best = x;
            }
            i = i + 1;
        }
        proof {
            assert(self.updates().take(i as int) =~= self.updates());
        }
        best
    }
}

/// The spam score that counts at `date` among `updates`.
pub fn spam_score_at_date_of(updates: &Vec<&DatedSpamUpdate>, date: Date) -> (r: Option<SpamScore>)
    ensures
        r == spam_score_at(updates@.map_values(|u: &DatedSpamUpdate| *u), date.day_number()),
{
    let ghost ups = updates@.map_values(|u: &DatedSpamUpdate| *u);
    let mut best: Option<DatedSpamUpdate> = None;
    let mut i: usize = 0;
    while i < updates.len()
        invariant
            i <= updates@.len(),
            ups == updates@.map_values(|u: &DatedSpamUpdate| *u),
            best == latest_update_at(ups.take(i as int), date.day_number()),
        decreases updates@.len() - i,
    {
        let x = *updates[i];
        proof {
            assert(ups.take(i + 1).drop_last() =~= ups.take(i as int));
            assert(ups.take(i + 1).last() == x);
        }
        if x.date().is_at_or_before(&date) {
            match best {
                Some(b) => {
                    if b.date().is_at_or_before(&x.date()) {
                        best = Some(x);
                    }
                },
                None => {
                    best = Some(x);
                },
            }
        }
        i = i + 1;
    }
    proof {
        assert(ups.take(i as int) =~= ups);
    }
    match best {
        Some(b) => Some(b.inner().score()),
        None => None,
    }
}

impl<'a> IsUser<'a> for UserWithSpamData<'a> {
    open spec fn spec_user(&self) -> &'a UserStoreWithNativeUserValue {
        UserWithSpamData::spec_user(*self)
    }

    fn fid(&self) -> (r: Fid) {
        self.user.fid()
    }

    fn user(&self) -> (r: &'a UserStoreWithNativeUserValue) {
        self.user
    }
}

/// Whether the earliest spam update of `user` is at or after `date`; false for a user without
/// spam updates.
pub fn first_spam_update_at_or_after(user: &UserStoreWithNativeUserValue, date: Date) -> (r: bool)
    ensures
        r == (min_day(spam_updates_of(user@.1)) matches Some(m) && date.day_number() <= m),
{
    match UserWithSpamData::try_from_user(user) {
        Ok(u) => {
            proof {
                UserWithSpamData::lemma_of(user);
            }
            date.is_at_or_before(&u.earliest_spam_update().date())
        },
        Err(_) => false,
    }
}

/// Whether the earliest spam update of `user` is at or before `date`; false for a user without
/// spam updates.
pub fn first_spam_update_at_or_before(user: &UserStoreWithNativeUserValue, date: Date) -> (r:
    bool)
    ensures
        r == (min_day(spam_updates_of(user@.1)) matches Some(m) && m <= date.day_number()),
{
    match UserWithSpamData::try_from_user(user) {
        Ok(u) => {
            proof {
                UserWithSpamData::lemma_of(user);
            }
            u.earliest_spam_update().date().is_at_or_before(&date)
        },
        Err(_) => false,
    }
}

/// Whether the spam score of `user` at `date` is `score`; false for a user without a spam
/// score then.
pub fn spam_score_at_is(user: &UserStoreWithNativeUserValue, date: Date, score: SpamScore) -> (r:
    bool)
    ensures
        r == (spam_score_at(spam_updates_of(user@.1), date.day_number()) == Some(score)),
{
    match UserWithSpamData::try_from_user(user) {
        Ok(u) => {
            proof {
                UserWithSpamData::lemma_of(user);
            }
            match u.spam_score_at_date(date) {
                Some(s) => s == score,
                None => false,
            }
        },
        Err(_) => false,
    }
}

/// Whether the latest spam update of `user` has spam score `score`; false for a user without
/// spam updates.
pub fn latest_spam_score_is(user: &UserStoreWithNativeUserValue, score: SpamScore) -> (r: bool)
    ensures
        r == (latest_update(spam_updates_of(user@.1)) matches Some(x) && x.spec_inner().spec_score()
            == score),
{
    match UserWithSpamData::try_from_user(user) {
        Ok(u) => {
            proof {
                UserWithSpamData::lemma_of(user);
            }
            u.latest_spam_update().inner().score() == score
        },
        Err(_) => false,
    }
}

} // verus!
