//! An iterator over dates at a daily, weekly or monthly cadence, for time series analysis.
use crate::date::{
    MIN_DAY, days_in_month, lemma_ymd_of_ymd, valid_ymd, ymd_add_months, ymd_to_day, Date, MAX_DAY,
    MAX_YEAR, MIN_YEAR, UNIX_EPOCH_DAY,
};
use core::marker::PhantomData;
use vstd::prelude::*;

verus! {

broadcast use Date::lemma_day_number_injective;

/// Marks a [`TimeIterator`] that is still being set up.
pub struct Unstarted;

/// Marks a [`TimeIterator`] that is built and can be iterated.
pub struct Ready;

/// How a [`TimeIterator`] moves from one date to the next.
pub trait IterInterval: Sized {
    /// The day number of the date that follows `previous`, if a date can hold it.
    spec fn next_day(&self, previous: Date) -> Option<int>;

    /// The date that follows `previous_date`, if a date can hold it; it is always later.
    fn next_date_candidate(&self, previous_date: Date) -> (r: Option<Date>)
        ensures
            r is Some <==> self.next_day(previous_date) is Some,
            r matches Some(d) ==> self.next_day(previous_date) == Some(d.day_number()),
            r matches Some(d) ==> previous_date.day_number() < d.day_number(),
    ;

    /// The next date is later than the previous one, and a date can hold it.
    proof fn lemma_next_day_later(&self, previous: Date)
        requires
            previous.in_range(),
        ensures
            self.next_day(previous) matches Some(c) ==> previous.day_number() < c <= MAX_DAY,
    ;

    /// A date at least 31 days before the latest date has a next date, at most 31 days later.
    proof fn lemma_next_day_within_a_month(&self, previous: Date)
        requires
            previous.in_range(),
            previous.day_number() + 31 <= MAX_DAY,
        ensures
            self.next_day(previous) matches Some(c) && c <= previous.day_number() + 31,
    ;
}

/// One day at a time.
pub struct Daily;

/// Seven days at a time.
pub struct Weekly;

/// To the first day of each following month.
pub struct Monthly {
    day_in_month: u8,
}

impl Default for Daily {
    fn default() -> (r: Daily) {
        Daily
    }
}

impl Default for Weekly {
    fn default() -> (r: Weekly) {
        Weekly
    }
}

impl Monthly {
    /// The day of the month that was set on the cadence.
    pub closed spec fn spec_day_in_month(self) -> u8 {
        self.day_in_month
    }
}

impl Default for Monthly {
    fn default() -> (r: Monthly)
        ensures
            r.spec_day_in_month() == 1,
    {
        Monthly { day_in_month: 1 }
    }
}

impl IterInterval for Daily {
    open spec fn next_day(&self, previous: Date) -> Option<int> {
        if previous.day_number() + 1 <= MAX_DAY {
            Some(previous.day_number() + 1)
        } else {
            None
        }
    }

    fn next_date_candidate(&self, previous_date: Date) -> (r: Option<Date>) {
        previous_date.checked_add_days(1)
    }

    proof fn lemma_next_day_later(&self, previous: Date) {
    }

    proof fn lemma_next_day_within_a_month(&self, previous: Date) {
    }
}

impl IterInterval for Weekly {
    open spec fn next_day(&self, previous: Date) -> Option<int> {
        if previous.day_number() + 7 <= MAX_DAY {
            Some(previous.day_number() + 7)
        } else {
            None
        }
    }

    fn next_date_candidate(&self, previous_date: Date) -> (r: Option<Date>) {
        previous_date.checked_add_days(7)
    }

    proof fn lemma_next_day_later(&self, previous: Date) {
    }

    proof fn lemma_next_day_within_a_month(&self, previous: Date) {
    }
}

/// The first day of the month after the calendar day `t`, as a day number, before any
/// check that a date can hold it.
pub open spec fn first_of_next_month(t: (int, int, int)) -> int {
    let n = ymd_add_months(t, 1);
    ymd_to_day(n.0, n.1, 1)
}

/// The first day of the next month is later than any day of the month.
proof fn lemma_first_of_next_month(y: int, m: int, d: int)
    requires
        valid_ymd(y, m, d),
    ensures
        ymd_add_months((y, m, d), 1).0 >= MIN_YEAR,
        1 <= ymd_add_months((y, m, d), 1).1 <= 12,
        1 <= ymd_add_months((y, m, d), 1).2 <= days_in_month(
            ymd_add_months((y, m, d), 1).0,
            ymd_add_months((y, m, d), 1).1,
        ),
        ymd_to_day(y, m, d) < first_of_next_month((y, m, d)),
{
    let n = ymd_add_months((y, m, d), 1);
    if m < 12 {
        assert((y * 12 + m) / 12 == y);
        assert((y * 12 + m) % 12 == m);
        assert(n.0 == y && n.1 == m + 1);
    } else {
        assert((y * 12 + 12) / 12 == y + 1);
        assert((y * 12 + 12) % 12 == 0);
        assert(n.0 == y + 1 && n.1 == 1);
        crate::date::lemma_days_before_month_13(y);
        crate::date::lemma_days_before_next_year(y);
    }
}

impl IterInterval for Monthly {
    open spec fn next_day(&self, previous: Date) -> Option<int> {
        if ymd_add_months(previous.ymd(), 1).0 <= MAX_YEAR {
            Some(first_of_next_month(previous.ymd()))
        } else {
            None
        }
    }

    fn next_date_candidate(&self, previous_date: Date) -> (r: Option<Date>) {
        proof {
            use_type_invariant(&previous_date);
            previous_date.lemma_ymd();
            let t = previous_date.ymd();
            lemma_first_of_next_month(t.0, t.1, t.2);
        }
        match previous_date.checked_add_months(1) {
            Some(next_month) => {
                proof {
                    let n = ymd_add_months(previous_date.ymd(), 1);
                    lemma_ymd_of_ymd(n.0, n.1, n.2);
                }
                next_month.with_day(1)
            },
            None => None,
        }
    }

    proof fn lemma_next_day_later(&self, previous: Date) {
        previous.lemma_ymd();
        let t = previous.ymd();
        lemma_first_of_next_month(t.0, t.1, t.2);
        let n = ymd_add_months(t, 1);
        if n.0 <= MAX_YEAR {
            crate::date::lemma_ymd_in_range(n.0, n.1, 1);
        }
    }

    proof fn lemma_next_day_within_a_month(&self, previous: Date) {
        previous.lemma_ymd();
        let t = previous.ymd();
        let (y, m, d) = t;
        lemma_first_of_next_month(y, m, d);
        let n = ymd_add_months(t, 1);
        if m < 12 {
            assert((y * 12 + m) / 12 == y);
            assert((y * 12 + m) % 12 == m);
            assert(n.0 == y && n.1 == m + 1);
            assert(crate::date::days_before_month(y, m + 1) == crate::date::days_before_month(y, m)
                + days_in_month(y, m));
        } else {
            assert((y * 12 + 12) / 12 == y + 1);
            assert((y * 12 + 12) % 12 == 0);
            assert(n.0 == y + 1 && n.1 == 1);
            crate::date::lemma_days_before_month_13(y);
            crate::date::lemma_days_before_next_year(y);
            assert(crate::date::days_before_month(y, 13) == crate::date::days_before_month(y, 12)
                + 31);
            if y + 1 > MAX_YEAR {
                assert(crate::date::days_before_year(MAX_YEAR + 1) == MAX_DAY);
            }
        }
    }
}

/// An iterator over dates, convenient for time series analysis.
///
/// By default it is an open-ended daily iterator starting at 1970-01-01. Set it up with
/// the `with_` methods, then call [`TimeIterator::build`]: only a built iterator can be
/// iterated, and it can no longer be set up. The first date is the start date; each later
/// one follows the cadence, and the end date, when there is one, is always the last date.
pub struct TimeIterator<S, I: IterInterval> {
    current: Date,
    end_date: Option<Date>,
    fused: bool,
    first: bool,
    time_specific: I,
    marker: PhantomData<S>,
}

impl<S, I: IterInterval> TimeIterator<S, I> {
    /// The date the iterator is at: the start date before the first step, then the date
    /// it returned last.
    pub closed spec fn spec_current(self) -> Date {
        self.current
    }

    /// The date after which the iterator returns no date.
    pub closed spec fn spec_end_date(self) -> Option<Date> {
        self.end_date
    }

    /// Whether the iterator is done.
    pub closed spec fn is_fused(self) -> bool {
        self.fused
    }

    /// Whether the iterator has yet to return its first date.
    pub closed spec fn is_first(self) -> bool {
        self.first
    }

    /// The cadence of the iterator.
    pub closed spec fn interval(self) -> I {
        self.time_specific
    }

    /// The start date is not after the end date, and an iterator that is past its first
    /// step and not done is before its end date.
    pub open spec fn ordered(self) -> bool {
        self.spec_end_date() matches Some(e) ==> {
            &&& self.spec_current().day_number() <= e.day_number()
            &&& !self.is_first() && !self.is_fused() ==> self.spec_current().day_number()
                < e.day_number()
        }
    }

    /// Where a step after the first one moves the iterator: the day number of the date it
    /// returns and whether that step ends the iteration; `None` where no date can hold the
    /// next date.
    pub open spec fn next_step(self) -> Option<(int, bool)> {
        match self.interval().next_day(self.spec_current()) {
            None => None,
            Some(c) => match self.spec_end_date() {
                None => Some((c, false)),
                Some(e) => if c < e.day_number() {
                    Some((c, false))
                } else {
                    Some((e.day_number(), true))
                },
            },
        }
    }
}

impl<S, I: IterInterval + Default> Default for TimeIterator<S, I> {
    fn default() -> (r: Self)
        ensures
            r.spec_current().day_number() == UNIX_EPOCH_DAY,
            r.spec_end_date() is None,
            !r.is_fused(),
            r.is_first(),
    {
        TimeIterator {
            first: true,
            end_date: None,
            fused: false,
            time_specific: I::default(),
            current: Date::default(),
            marker: PhantomData,
        }
    }
}

impl TimeIterator<Unstarted, Daily> {
    /// An open-ended daily iterator starting at 1970-01-01.
    pub fn new() -> (r: Self)
        ensures
            r.spec_current().day_number() == UNIX_EPOCH_DAY,
            r.spec_end_date() is None,
            !r.is_fused(),
            r.is_first(),
    {
        Self::default()
    }
}

impl<I: IterInterval + Default> TimeIterator<Unstarted, I> {
    /// The same iterator, starting at `start_date`.
    pub fn with_start_date(self, start_date: Date) -> (r: Self)
        ensures
            r.spec_current() == start_date,
            r.spec_end_date() == self.spec_end_date(),
            r.is_fused() == self.is_fused(),
            r.is_first() == self.is_first(),
            r.interval() == self.interval(),
    {
        let mut s = self;
        s.current = start_date;
        s
    }

    /// The same iterator, ending at `end_date`.
    pub fn with_end_date(self, end_date: Date) -> (r: Self)
        ensures
            r.spec_current() == self.spec_current(),
            r.spec_end_date() == Some(end_date),
            r.is_fused() == self.is_fused(),
            r.is_first() == self.is_first(),
            r.interval() == self.interval(),
    {
        let mut s = self;
        s.end_date = Some(end_date);
        s
    }

    /// The same iterator at a monthly cadence.
    pub fn with_monthly_cadence(self) -> (r: TimeIterator<Unstarted, Monthly>)
        ensures
            r.spec_current() == self.spec_current(),
            r.spec_end_date() == self.spec_end_date(),
            r.is_fused() == self.is_fused(),
            r.is_first() == self.is_first(),
            r.interval().spec_day_in_month() == 1,
    {
        let monthly = Monthly { day_in_month: 1 };
        TimeIterator::<Unstarted, Monthly> {
            current: self.current,
            end_date: self.end_date,
            fused: self.fused,
            first: self.first,
            time_specific: monthly,
            marker: PhantomData,
        }
    }

    /// The same iterator at a weekly cadence.
    pub fn with_weekly_cadence(self) -> (r: TimeIterator<Unstarted, Weekly>)
        ensures
            r.spec_current() == self.spec_current(),
            r.spec_end_date() == self.spec_end_date(),
            r.is_fused() == self.is_fused(),
            r.is_first() == self.is_first(),
    {
        TimeIterator::<Unstarted, Weekly> {
            current: self.current,
            end_date: self.end_date,
            fused: self.fused,
            first: self.first,
            time_specific: Weekly,
            marker: PhantomData,
        }
    }

    /// The built iterator, which can be iterated and no longer set up.
    pub fn build(self) -> (r: TimeIterator<Ready, I>)
        ensures
            r.spec_current() == self.spec_current(),
            r.spec_end_date() == self.spec_end_date(),
            r.is_fused() == self.is_fused(),
            r.is_first() == self.is_first(),
            r.interval() == self.interval(),
    {
        TimeIterator::<Ready, I> {
            first: self.first,
            current: self.current,
            end_date: self.end_date,
            fused: self.fused,
            time_specific: self.time_specific,
            marker: PhantomData,
        }
    }
}

impl TimeIterator<Unstarted, Monthly> {
    /// The same iterator with `day_in_month` set on its monthly cadence; the day must be
    /// before the 28th.
    pub fn with_date_of_month(self, day_in_month: u8) -> (r: Self)
        requires
            day_in_month < 28,
        ensures
            r.spec_current() == self.spec_current(),
            r.spec_end_date() == self.spec_end_date(),
            r.is_fused() == self.is_fused(),
            r.is_first() == self.is_first(),
            r.interval().spec_day_in_month() == day_in_month,
    {
        let mut s = self;
        s.time_specific.day_in_month = day_in_month;
        s
    }
}

impl<I: IterInterval + Default> TimeIterator<Ready, I> {
    /// The first step: returns the start date, and ends the iteration where it is the end
    /// date.
    pub fn handle_first_iteration(&mut self) -> (r: Option<Date>)
        ensures
            r == Some(old(self).spec_current()),
            final(self).spec_current() == old(self).spec_current(),
            final(self).spec_end_date() == old(self).spec_end_date(),
            final(self).interval() == old(self).interval(),
            !final(self).is_first(),
            final(self).is_fused() == (old(self).is_fused() || old(self).spec_end_date() == Some(
                old(self).spec_current(),
            )),
    {
        self.first = false;
        match self.end_date {
            Some(end_date) => {
                if self.current == end_date {
                    self.fused = true;
                }
            },
            None => {},
        }
        Some(self.current)
    }

    /// A step after the first: moves to the next date of the cadence, or to the end date
    /// where the next date is not before it, which ends the iteration. Where no date can
    /// hold the next date, returns `None` and changes nothing.
    pub fn handle_non_first_iteration(&mut self) -> (r: Option<Date>)
        ensures
            old(self).next_step() is None ==> r is None && *final(self) == *old(self),
            old(self).next_step() matches Some(step) ==> {
                &&& r == Some(final(self).spec_current())
                &&& final(self).spec_current().day_number() == step.0
                &&& final(self).is_fused() == (old(self).is_fused() || step.1)
                &&& final(self).is_first() == old(self).is_first()
                &&& final(self).spec_end_date() == old(self).spec_end_date()
                &&& final(self).interval() == old(self).interval()
            },
    {
        let candidate = match self.time_specific.next_date_candidate(self.current) {
            Some(c) => c,
            None => {
                return None;
            },
        };
        match self.end_date {
            Some(end_date) => {
                if candidate.is_before(&end_date) {
                    self.current = candidate;
                } else {
                    self.current = end_date;
                    self.fused = true;
                }
            },
            None => {
                self.current = candidate;
            },
        }
        Some(self.current)
    }

    /// The next date: none once the iteration is done; the start date first; then each
    /// date of the cadence, up to the end date when there is one, which is always the last.
    /// Where the start date is not after the end date, the dates come in increasing order
    /// and none is after the end date.
    pub fn next(&mut self) -> (r: Option<Date>)
        ensures
            old(self).is_fused() ==> r is None && *final(self) == *old(self),
            !old(self).is_fused() && old(self).is_first() ==> {
                &&& r == Some(old(self).spec_current())
                &&& final(self).spec_current() == old(self).spec_current()
                &&& !final(self).is_first()
                &&& final(self).is_fused() == (old(self).spec_end_date() == Some(
                    old(self).spec_current(),
                ))
                &&& final(self).spec_end_date() == old(self).spec_end_date()
                &&& final(self).interval() == old(self).interval()
            },
            !old(self).is_fused() && !old(self).is_first() ==> {
                &&& old(self).next_step() is None ==> r is None && *final(self) == *old(self)
                &&& old(self).next_step() matches Some(step) ==> {
                    &&& r == Some(final(self).spec_current())
                    &&& final(self).spec_current().day_number() == step.0
                    &&& final(self).is_fused() == step.1
                    &&& !final(self).is_first()
                    &&& final(self).spec_end_date() == old(self).spec_end_date()
                    &&& final(self).interval() == old(self).interval()
                }
            },
            old(self).ordered() ==> final(self).ordered(),
            old(self).ordered() && r is Some && !old(self).is_first() ==> old(
                self,
            ).spec_current().day_number() < r->0.day_number(),
            old(self).ordered() && r is Some ==> (old(self).spec_end_date() matches Some(e)
                ==> r->0.day_number() <= e.day_number()),
            old(self).next_rel(*final(self), r),
    {
        if self.fused {
            return None;
        }
        if self.first {
            return self.handle_first_iteration();
        }
        proof {
            use_type_invariant(&self.current);
            self.time_specific.lemma_next_day_later(self.current);
        }
        self.handle_non_first_iteration()
    }
}

impl<I: IterInterval + Default> TimeIterator<Ready, I> {
    /// What one call of [`TimeIterator::next`] does: from `self` it leaves `after` and
    /// returns `r`.
    pub open spec fn next_rel(self, after: Self, r: Option<Date>) -> bool {
        &&& self.is_fused() ==> r is None && after == self
        &&& !self.is_fused() && self.is_first() ==> {
            &&& r == Some(self.spec_current())
            &&& after.spec_current() == self.spec_current()
            &&& !after.is_first()
            &&& after.is_fused() == (self.spec_end_date() == Some(self.spec_current()))
            &&& after.spec_end_date() == self.spec_end_date()
            &&& after.interval() == self.interval()
        }
        &&& !self.is_fused() && !self.is_first() ==> {
            &&& self.next_step() is None ==> r is None && after == self
            &&& self.next_step() matches Some(step) ==> {
                &&& r == Some(after.spec_current())
                &&& after.spec_current().day_number() == step.0
                &&& after.is_fused() == step.1
                &&& !after.is_first()
                &&& after.spec_end_date() == self.spec_end_date()
                &&& after.interval() == self.interval()
            }
        }
    }

    /// Whether `outs` are the dates that repeated calls of [`TimeIterator::next`] return, from
    /// `states[0]` on, and `states` the iterators they leave.
    pub open spec fn is_run(states: Seq<Self>, outs: Seq<Option<Date>>) -> bool {
        &&& states.len() == outs.len() + 1
        &&& forall|i: int|
            #![trigger outs[i]]
            0 <= i < outs.len() ==> states[i].next_rel(states[i + 1], outs[i])
    }

    /// One call of `next` on an iterator with end date `e`, at least 31 days before the latest
    /// date, where the iterator is not past it.
    proof fn lemma_step(st: Self, after: Self, r: Option<Date>, e: Date)
        requires
            st.next_rel(after, r),
            st.spec_end_date() == Some(e),
            e.day_number() + 31 <= MAX_DAY,
            MIN_DAY <= st.spec_current().day_number(),
            st.ordered(),
        ensures
            after.spec_end_date() == Some(e),
            after.interval() == st.interval(),
            MIN_DAY <= after.spec_current().day_number(),
            after.ordered(),
            st.is_fused() ==> r is None && after == st,
            !st.is_fused() && st.is_first() ==> r == Some(st.spec_current()) && !after.is_first()
                && after.spec_current() == st.spec_current() && after.is_fused() == (
            st.spec_current() == e),
            !st.is_fused() && !st.is_first() ==> r == Some(after.spec_current())
                && !after.is_first() && st.spec_current().day_number()
                < after.spec_current().day_number() <= e.day_number() && after.is_fused() == (
            after.spec_current() == e),
    {
        if !st.is_fused() && !st.is_first() {
            let cur = st.spec_current();
            cur.lemma_in_range();
            st.interval().lemma_next_day_within_a_month(cur);
            st.interval().lemma_next_day_later(cur);
            assert(st.next_step() is Some);
            let step = st.next_step().unwrap();
            if step.1 {
                assert(after.spec_current().day_number() == e.day_number());
            }
        }
    }

    /// What the first `n` calls of a run from a freshly built iterator with end date `e`
    /// give.
    proof fn lemma_run_prefix(states: Seq<Self>, outs: Seq<Option<Date>>, e: Date, n: int)
        requires
            Self::is_run(states, outs),
            0 <= n <= outs.len(),
            states[0].is_first(),
            !states[0].is_fused(),
            states[0].spec_current().in_range(),
            states[0].spec_end_date() == Some(e),
            states[0].spec_current().day_number() <= e.day_number(),
            e.day_number() + 31 <= MAX_DAY,
        ensures
            ({
                let s = states[0].spec_current().day_number();
                let st = states[n];
                &&& st.spec_end_date() == Some(e)
                &&& st.interval() == states[0].interval()
                &&& MIN_DAY <= st.spec_current().day_number()
                &&& st.ordered()
                &&& n == 0 ==> st == states[0]
                &&& n >= 1 ==> !st.is_first() && outs[0] == Some(states[0].spec_current())
                &&& n >= 1 && !st.is_fused() ==> outs[n - 1] == Some(st.spec_current())
                    && st.spec_current().day_number() >= s + n - 1
                &&& n >= 1 && st.is_fused() ==> st.spec_current() == e && exists|j: int|
                    0 <= j < n && #[trigger] outs[j] == Some(e)
                &&& forall|i: int|
                    #![trigger outs[i]]
                    0 <= i < n && outs[i] is Some ==> s <= outs[i].unwrap().day_number()
                        <= st.spec_current().day_number()
                &&& forall|i: int, j: int|
                    #![trigger outs[i], outs[j]]
                    0 <= i < j < n && outs[i] is Some && outs[j] is Some
                        ==> outs[i].unwrap().day_number() < outs[j].unwrap().day_number()
                &&& forall|i: int|
                    #![trigger outs[i]]
                    0 <= i < n && outs[i] is None ==> exists|j: int|
                        0 <= j < i && #[trigger] outs[j] == Some(e)
            }),
        decreases n,
    {
        states[0].spec_current().lemma_ymd();
        if n > 0 {
            Self::lemma_run_prefix(states, outs, e, n - 1);
            let prev = states[n - 1];
            let st = states[n];
            assert(prev.next_rel(st, outs[n - 1]));
            Self::lemma_step(prev, st, outs[n - 1], e);
            let s = states[0].spec_current().day_number();
            if prev.is_fused() {
                assert forall|i: int|
                    #![trigger outs[i]]
                    0 <= i < n && outs[i] is None implies exists|j: int|
                        0 <= j < i && #[trigger] outs[j] == Some(e) by {
                    if i == n - 1 {
                        let j = choose|j: int| 0 <= j < n - 1 && #[trigger] outs[j] == Some(e);
                        assert(outs[j] == Some(e));
                    }
                }
            } else if prev.is_first() {
                assert(n == 1);
            } else {
                assert forall|i: int, j: int|
                    #![trigger outs[i], outs[j]]
                    0 <= i < j < n && outs[i] is Some && outs[j] is Some implies outs[i].unwrap().day_number()
                        < outs[j].unwrap().day_number() by {
                    if j == n - 1 {
                        assert(outs[i].unwrap().day_number() <= prev.spec_current().day_number());
                    }
                }
            }
        }
    }

    /// A run of [`TimeIterator::next`] from a freshly built iterator whose start date is not
    /// after its end date, at least 31 days before the latest date: the first date is the
    /// start date; the dates increase strictly and stay from the start to the end date; once
    /// the end date came, or no date, no date comes again; no date comes only after the end
    /// date; and the end date comes within as many calls as there are days from the start to
    /// the end date, plus one.
    pub proof fn lemma_run(states: Seq<Self>, outs: Seq<Option<Date>>)
        requires
            Self::is_run(states, outs),
            states[0].is_first(),
            !states[0].is_fused(),
            states[0].spec_current().in_range(),
            states[0].spec_end_date() matches Some(e) && states[0].spec_current().day_number()
                <= e.day_number() && e.day_number() + 31 <= MAX_DAY,
        ensures
            ({
                let s = states[0].spec_current();
                let e = states[0].spec_end_date().unwrap();
                &&& outs.len() > 0 ==> outs[0] == Some(s)
                &&& forall|i: int|
                    #![trigger outs[i]]
                    0 <= i < outs.len() && outs[i] is Some ==> s.day_number()
                        <= outs[i].unwrap().day_number() <= e.day_number()
                &&& forall|i: int, j: int|
                    #![trigger outs[i], outs[j]]
                    0 <= i < j < outs.len() && outs[i] is Some && outs[j] is Some
                        ==> outs[i].unwrap().day_number() < outs[j].unwrap().day_number()
                &&& forall|i: int, j: int|
                    #![trigger outs[i], outs[j]]
                    0 <= i < j < outs.len() && (outs[i] is None || outs[i] == Some(e))
                        ==> outs[j] is None
                &&& forall|i: int|
                    #![trigger outs[i]]
                    0 <= i < outs.len() && outs[i] is None ==> exists|j: int|
                        0 <= j < i && #[trigger] outs[j] == Some(e)
                &&& outs.len() > e.day_number() - s.day_number() ==> exists|i: int|
                    0 <= i <= e.day_number() - s.day_number() && #[trigger] outs[i] == Some(e)
            }),
    {
        let s = states[0].spec_current();
        let e = states[0].spec_end_date().unwrap();
        let len = outs.len() as int;
        Self::lemma_run_prefix(states, outs, e, len);
        let last = states[len];
        assert forall|i: int, j: int|
            #![trigger outs[i], outs[j]]
            0 <= i < j < len && (outs[i] is None || outs[i] == Some(e)) implies outs[j] is None by {
            let k = if outs[i] is None {
                choose|k: int| 0 <= k < i && #[trigger] outs[k] == Some(e)
            } else {
                i
            };
            assert(outs[k] == Some(e));
            Self::lemma_run_prefix(states, outs, e, j);
            Self::lemma_run_prefix(states, outs, e, j + 1);
            let before = states[j];
            assert(before.next_rel(states[j + 1], outs[j]));
            Self::lemma_step(before, states[j + 1], outs[j], e);
            if !before.is_fused() {
                assert(e.day_number() <= before.spec_current().day_number());
                assert(!before.is_first());
            }
        }
        if len > e.day_number() - s.day_number() {
            let n0 = e.day_number() - s.day_number() + 1;
            Self::lemma_run_prefix(states, outs, e, n0);
            assert(states[n0].is_fused());
        }
    }
}

} // verus!
