//! A set of users that each hold spam data, and the spam statistics of the set.
use crate::date::{Date, MAX_DAY, MIN_DAY};
use crate::fid::Fid;
use crate::fid_score_shift::{
    shift_index, shift_of_index, source_of_score, target_of_score, FidScoreShift, ShiftSource,
    ShiftTarget,
};
use crate::spam_score::{DatedSpamScoreCount, SpamScore, SpamScoreCount};
use crate::subset::UsersSubset;
use crate::user::UserStoreWithNativeUserValue;
use crate::user_collection::{users_kept, UserCollection};
use crate::user_value::{AnyNativeUserValue, DatedSpamUpdate};
use crate::user_with_spam_data::{
    day_of, earliest_update, has_spam_data, latest_update, lemma_earliest_update,
    lemma_latest_update, lemma_latest_update_at, max_day, min_day, spam_score_at,
    spam_updates_of, UserWithSpamData,
};
use std::collections::HashMap;
use vstd::prelude::*;

verus! {

/// The spam updates of a user.
pub open spec fn user_updates(u: (Fid, Seq<AnyNativeUserValue>)) -> Seq<DatedSpamUpdate> {
    spam_updates_of(u.1)
}

/// The smaller of two optional numbers, where none counts as no number.
pub open spec fn opt_min(a: Option<int>, b: Option<int>) -> Option<int> {
    match (a, b) {
        (Some(x), Some(y)) => Some(if x <= y { x } else { y }),
        (Some(x), None) => Some(x),
        (None, _) => b,
    }
}

/// The larger of two optional numbers, where none counts as no number.
pub open spec fn opt_max(a: Option<int>, b: Option<int>) -> Option<int> {
    match (a, b) {
        (Some(x), Some(y)) => Some(if x >= y { x } else { y }),
        (Some(x), None) => Some(x),
        (None, _) => b,
    }
}

/// The earliest day of any spam update of any of the users.
pub open spec fn set_min_day(users: Seq<(Fid, Seq<AnyNativeUserValue>)>) -> Option<int>
    decreases users.len(),
{
    if users.len() == 0 {
        None
    } else {
        opt_min(set_min_day(users.drop_last()), min_day(user_updates(users.last())))
    }
}

/// The latest day of any spam update of any of the users.
pub open spec fn set_max_day(users: Seq<(Fid, Seq<AnyNativeUserValue>)>) -> Option<int>
    decreases users.len(),
{
    if users.len() == 0 {
        None
    } else {
        opt_max(set_max_day(users.drop_last()), max_day(user_updates(users.last())))
    }
}

/// Whether user `u` has a spam score at day `day`: its earliest update is at or before it.
pub open spec fn scored_by(u: (Fid, Seq<AnyNativeUserValue>), day: int) -> bool {
    min_day(user_updates(u)) matches Some(m) && m <= day
}

/// The number of users whose spam score at day `day` is `score`.
pub open spec fn score_count_at(
    users: Seq<(Fid, Seq<AnyNativeUserValue>)>,
    day: int,
    score: SpamScore,
) -> nat
    decreases users.len(),
{
    if users.len() == 0 {
        0
    } else {
        score_count_at(users.drop_last(), day, score) + if spam_score_at(
            user_updates(users.last()),
            day,
        ) == Some(score) {
            1nat
        } else {
            0nat
        }
    }
}

/// The number of users that have a spam score at day `day`.
pub open spec fn scored_count(users: Seq<(Fid, Seq<AnyNativeUserValue>)>, day: int) -> nat
    decreases users.len(),
{
    if users.len() == 0 {
        0
    } else {
        scored_count(users.drop_last(), day) + if scored_by(users.last(), day) {
            1nat
        } else {
            0nat
        }
    }
}

/// Whether every user holds spam data.
pub open spec fn all_have_spam_data(users: Seq<(Fid, Seq<AnyNativeUserValue>)>) -> bool {
    forall|i: int| 0 <= i < users.len() ==> has_spam_data(#[trigger] users[i])
}

/// A user's earliest day is at or before its latest day.
pub proof fn lemma_user_min_le_max(u: (Fid, Seq<AnyNativeUserValue>))
    requires
        has_spam_data(u),
    ensures
        min_day(user_updates(u)) is Some,
        max_day(user_updates(u)) is Some,
        min_day(user_updates(u)).unwrap() <= max_day(user_updates(u)).unwrap(),
{
    let ups = user_updates(u);
    lemma_earliest_update(ups);
    lemma_latest_update(ups);
    assert(day_of(earliest_update(ups).unwrap()) <= day_of(ups[0]));
    assert(day_of(ups[0]) <= day_of(latest_update(ups).unwrap()));
}

/// The earliest day of a set of users with spam data is that of one of them, and no user's
/// earliest day is before it; the same holds of the latest day, the other way round.
pub proof fn lemma_set_days(users: Seq<(Fid, Seq<AnyNativeUserValue>)>)
    requires
        all_have_spam_data(users),
        users.len() > 0,
    ensures
        set_min_day(users) is Some,
        set_max_day(users) is Some,
        forall|i: int|
            0 <= i < users.len() ==> set_min_day(users).unwrap() <= #[trigger] min_day(
                user_updates(users[i]),
            ).unwrap(),
        forall|i: int|
            0 <= i < users.len() ==> #[trigger] max_day(user_updates(users[i])).unwrap()
                <= set_max_day(users).unwrap(),
        exists|i: int|
            0 <= i < users.len() && set_min_day(users).unwrap() == #[trigger] min_day(
                user_updates(users[i]),
            ).unwrap(),
        exists|i: int|
            0 <= i < users.len() && set_max_day(users).unwrap() == #[trigger] max_day(
                user_updates(users[i]),
            ).unwrap(),
    decreases users.len(),
{
    let last = users[users.len() - 1];
    assert(has_spam_data(last));
    lemma_user_min_le_max(last);
    let prefix = users.drop_last();
    if users.len() > 1 {
        assert(all_have_spam_data(prefix)) by {
            assert forall|i: int| 0 <= i < prefix.len() implies has_spam_data(#[trigger] prefix[i]) by {
                assert(prefix[i] == users[i]);
            }
        }
        lemma_set_days(prefix);
        let jmin = choose|i: int|
            0 <= i < prefix.len() && set_min_day(prefix).unwrap() == #[trigger] min_day(
                user_updates(prefix[i]),
            ).unwrap();
        let jmax = choose|i: int|
            0 <= i < prefix.len() && set_max_day(prefix).unwrap() == #[trigger] max_day(
                user_updates(prefix[i]),
            ).unwrap();
        assert(prefix[jmin] == users[jmin]);
        assert(prefix[jmax] == users[jmax]);
        assert forall|i: int| 0 <= i < users.len() implies set_min_day(users).unwrap()
            <= #[trigger] min_day(user_updates(users[i])).unwrap() by {
            if i < users.len() - 1 {
                assert(prefix[i] == users[i]);
            }
        }
        assert forall|i: int| 0 <= i < users.len() implies #[trigger] max_day(
            user_updates(users[i]),
        ).unwrap() <= set_max_day(users).unwrap() by {
            if i < users.len() - 1 {
                assert(prefix[i] == users[i]);
            }
        }
        if set_min_day(users).unwrap() == min_day(user_updates(last)).unwrap() {
            assert(users[users.len() - 1] == last);
        }
        if set_max_day(users).unwrap() == max_day(user_updates(last)).unwrap() {
            assert(users[users.len() - 1] == last);
        }
    } else {
        assert(users[0] == last);
    }
}

/// The users with a spam score at a day are exactly those counted by score: the three counts
/// add up to the number of users with a score then.
pub proof fn lemma_score_counts_total(users: Seq<(Fid, Seq<AnyNativeUserValue>)>, day: int)
    ensures
        score_count_at(users, day, SpamScore::Zero) + score_count_at(users, day, SpamScore::One)
            + score_count_at(users, day, SpamScore::Two) == scored_count(users, day),
        scored_count(users, day) <= users.len(),
    decreases users.len(),
{
    if users.len() > 0 {
        lemma_score_counts_total(users.drop_last(), day);
        lemma_latest_update_at(user_updates(users.last()), day);
    }
}

/// When every user is scored at a day, all of them are counted.
pub proof fn lemma_scored_count_all(users: Seq<(Fid, Seq<AnyNativeUserValue>)>, day: int)
    requires
        forall|i: int| 0 <= i < users.len() ==> scored_by(#[trigger] users[i], day),
    ensures
        scored_count(users, day) == users.len(),
    decreases users.len(),
{
    if users.len() > 0 {
        let prefix = users.drop_last();
        assert forall|i: int| 0 <= i < prefix.len() implies scored_by(#[trigger] prefix[i], day) by {
            assert(prefix[i] == users[i]);
        }
        lemma_scored_count_all(prefix, day);
        assert(users[users.len() - 1] == users.last());
    }
}

/// When no user is scored at a day, none is counted.
pub proof fn lemma_scored_count_none(users: Seq<(Fid, Seq<AnyNativeUserValue>)>, day: int)
    requires
        forall|i: int| 0 <= i < users.len() ==> !scored_by(#[trigger] users[i], day),
    ensures
        scored_count(users, day) == 0,
    decreases users.len(),
{
    if users.len() > 0 {
        let prefix = users.drop_last();
        assert forall|i: int| 0 <= i < prefix.len() implies !scored_by(#[trigger] prefix[i], day) by {
            assert(prefix[i] == users[i]);
        }
        lemma_scored_count_none(prefix, day);
        assert(users[users.len() - 1] == users.last());
    }
}

/// A user with a spam score at a day has one at every later day: the number of users with a
/// spam score never falls as the day moves on.
pub proof fn lemma_scored_count_monotone(users: Seq<(Fid, Seq<AnyNativeUserValue>)>, a: int, b: int)
    requires
        a <= b,
    ensures
        scored_count(users, a) <= scored_count(users, b),
    decreases users.len(),
{
    if users.len() > 0 {
        lemma_scored_count_monotone(users.drop_last(), a, b);
    }
}

/// The number of users with a spam score at a day, which
/// [`SetWithSpamEntries::user_count_with_spam_score_count_at_date`] returns, is the total of the
/// counts by score at that day, which [`SetWithSpamEntries::spam_score_count_at_date`] returns;
/// before the earliest spam update of the set, where that count is none, it is zero.
pub proof fn lemma_counts_cover_scored_users(set: SetWithSpamEntries, day: int)
    requires
        set.wf(),
    ensures
        score_count_at(set@, day, SpamScore::Zero) + score_count_at(set@, day, SpamScore::One)
            + score_count_at(set@, day, SpamScore::Two) == scored_count(set@, day),
        day < set.spec_earliest().day_number() ==> scored_count(set@, day) == 0,
{
    set.lemma_wf();
    lemma_score_counts_total(set@, day);
    if day < set.spec_earliest().day_number() {
        lemma_set_days(set@);
        lemma_scored_count_none(set@, day);
    }
}

/// The day `days` days after day `initial`, or the latest day a date can hold when that is
/// past it.
pub open spec fn end_day(initial: int, days: u64) -> int {
    if days <= i32::MAX && initial + days <= MAX_DAY {
        initial + days
    } else {
        MAX_DAY as int
    }
}

/// The index of the move of user `u` from its score at day `initial` (or from `New` when it has
/// none then) to its score at day `end`; none when it has no score at `end`.
pub open spec fn user_shift_index(u: (Fid, Seq<AnyNativeUserValue>), initial: int, end: int) -> Option<int> {
    let ups = user_updates(u);
    match spam_score_at(ups, end) {
        None => None,
        Some(t) => {
            let source = match spam_score_at(ups, initial) {
                Some(s) => s.spec_number(),
                None => 3,
            };
            Some(source * 3 + t.spec_number())
        },
    }
}

/// The number of users whose move between the days has index `k`.
pub open spec fn shift_count(
    users: Seq<(Fid, Seq<AnyNativeUserValue>)>,
    initial: int,
    end: int,
    k: int,
) -> nat
    decreases users.len(),
{
    if users.len() == 0 {
        0
    } else {
        shift_count(users.drop_last(), initial, end, k) + if user_shift_index(
            users.last(),
            initial,
            end,
        ) == Some(k) {
            1nat
        } else {
            0nat
        }
    }
}

/// The indices of the nonzero counts, in increasing order.
pub open spec fn nonzero_indices(counts: Seq<nat>) -> Seq<int>
    decreases counts.len(),
{
    if counts.len() == 0 {
        Seq::empty()
    } else {
        let rest = nonzero_indices(counts.drop_last());
        if counts.last() != 0 {
            rest.push(counts.len() - 1)
        } else {
            rest
        }
    }
}

/// The counts of the twelve moves between the days.
pub open spec fn shift_counts(
    users: Seq<(Fid, Seq<AnyNativeUserValue>)>,
    initial: int,
    end: int,
) -> Seq<nat> {
    Seq::new(12, |k: int| shift_count(users, initial, end, k))
}

/// Whether `r` lists, in the order of the move indices, each move with a nonzero count in
/// `counts`, with that count.
pub open spec fn is_shift_list(r: Seq<FidScoreShift>, counts: Seq<nat>) -> bool {
    let idx = nonzero_indices(counts);
    &&& r.len() == idx.len()
    &&& forall|j: int|
        0 <= j < r.len() ==> Some(((#[trigger] r[j]).spec_source(), r[j].spec_target()))
            == shift_of_index(idx[j]) && r[j].spec_count() == counts[idx[j]]
}

/// Whether user `u` moves from `source` at day `initial` to `target` at day `end`: its spam
/// score at `end` is `target`, and its spam score at `initial` is `source`, or it has none then
/// and `source` is `New`.
pub open spec fn moves_from_to(
    u: (Fid, Seq<AnyNativeUserValue>),
    initial: int,
    end: int,
    source: ShiftSource,
    target: ShiftTarget,
) -> bool {
    let ups = user_updates(u);
    &&& spam_score_at(ups, end) matches Some(t) && target_of_score(t) == target
    &&& match spam_score_at(ups, initial) {
        Some(s) => source_of_score(s) == source,
        None => source == ShiftSource::New,
    }
}

/// The number of users of `users` that move from `source` at day `initial` to `target` at day
/// `end`.
pub open spec fn movers(
    users: Seq<(Fid, Seq<AnyNativeUserValue>)>,
    initial: int,
    end: int,
    source: ShiftSource,
    target: ShiftTarget,
) -> nat
    decreases users.len(),
{
    if users.len() == 0 {
        0
    } else {
        movers(users.drop_last(), initial, end, source, target) + if moves_from_to(
            users.last(),
            initial,
            end,
            source,
            target,
        ) {
            1nat
        } else {
            0nat
        }
    }
}

/// The move a user is counted under is the move it makes.
proof fn lemma_user_shift_index(u: (Fid, Seq<AnyNativeUserValue>), initial: int, end: int, k: int)
    requires
        0 <= k < 12,
    ensures
        (user_shift_index(u, initial, end) == Some(k)) <==> moves_from_to(
            u,
            initial,
            end,
            shift_of_index(k).unwrap().0,
            shift_of_index(k).unwrap().1,
        ),
{
    let ups = user_updates(u);
    match spam_score_at(ups, end) {
        None => {},
        Some(t) => {
            match spam_score_at(ups, initial) {
                Some(s) => {
                    crate::fid_score_shift::lemma_shift_index_of_scores(s, t);
                    crate::fid_score_shift::lemma_shift_index_roundtrip(
                        k,
                        source_of_score(s),
                        target_of_score(t),
                    );
                },
                None => {
                    crate::fid_score_shift::lemma_shift_index_of_scores(t, t);
                    crate::fid_score_shift::lemma_shift_index_roundtrip(
                        k,
                        ShiftSource::New,
                        target_of_score(t),
                    );
                },
            }
        },
    }
}

/// The count of the move with index `k` is the number of users that make that move.
pub proof fn lemma_shift_count_movers(
    users: Seq<(Fid, Seq<AnyNativeUserValue>)>,
    initial: int,
    end: int,
    k: int,
)
    requires
        0 <= k < 12,
    ensures
        shift_count(users, initial, end, k) == movers(
            users,
            initial,
            end,
            shift_of_index(k).unwrap().0,
            shift_of_index(k).unwrap().1,
        ),
    decreases users.len(),
{
    if users.len() > 0 {
        lemma_shift_count_movers(users.drop_last(), initial, end, k);
        lemma_user_shift_index(users.last(), initial, end, k);
    }
}

/// The indices of the nonzero counts are those, and only those, of counts that are not zero.
pub proof fn lemma_nonzero_indices(counts: Seq<nat>)
    ensures
        forall|j: int|
            0 <= j < nonzero_indices(counts).len() ==> 0 <= #[trigger] nonzero_indices(counts)[j]
                < counts.len() && counts[nonzero_indices(counts)[j]] != 0,
        forall|k: int|
            0 <= k < counts.len() && #[trigger] counts[k] != 0 ==> nonzero_indices(counts).contains(k),
    decreases counts.len(),
{
    if counts.len() > 0 {
        let prefix = counts.drop_last();
        lemma_nonzero_indices(prefix);
        let rest = nonzero_indices(prefix);
        let idx = nonzero_indices(counts);
        assert forall|j: int| 0 <= j < idx.len() implies 0 <= #[trigger] idx[j] < counts.len()
            && counts[idx[j]] != 0 by {
            if j < rest.len() {
                assert(idx[j] == rest[j]);
                assert(prefix[rest[j]] == counts[rest[j]]);
            }
        }
        assert forall|k: int| 0 <= k < counts.len() && #[trigger] counts[k] != 0 implies idx.contains(
            k,
        ) by {
            if k < prefix.len() {
                assert(prefix[k] == counts[k]);
                let j = choose|j: int| 0 <= j < rest.len() && rest[j] == k;
                assert(idx[j] == k);
            } else {
                assert(idx[idx.len() - 1] == k);
            }
        }
    }
}

/// The moves that [`SetWithSpamEntries::spam_changes_with_fid_score_shift`] lists are exactly
/// the moves that users make: each listed move comes with the number of users that move from
/// its source score at the initial day (or from no score, for `New`) to its target score at
/// the end day, which is not zero; and every move that some user makes is listed.
pub proof fn lemma_shift_list_movers(
    users: Seq<(Fid, Seq<AnyNativeUserValue>)>,
    initial: int,
    end: int,
    r: Seq<FidScoreShift>,
)
    requires
        is_shift_list(r, shift_counts(users, initial, end)),
    ensures
        forall|j: int|
            0 <= j < r.len() ==> (#[trigger] r[j]).spec_count() == movers(
                users,
                initial,
                end,
                r[j].spec_source(),
                r[j].spec_target(),
            ) && r[j].spec_count() > 0,
        forall|source: ShiftSource, target: ShiftTarget|
            #[trigger] movers(users, initial, end, source, target) > 0 ==> exists|j: int|
                0 <= j < r.len() && (#[trigger] r[j]).spec_source() == source && r[j].spec_target()
                    == target,
{
    let counts = shift_counts(users, initial, end);
    let idx = nonzero_indices(counts);
    lemma_nonzero_indices(counts);
    assert forall|j: int| 0 <= j < r.len() implies (#[trigger] r[j]).spec_count() == movers(
        users,
        initial,
        end,
        r[j].spec_source(),
        r[j].spec_target(),
    ) && r[j].spec_count() > 0 by {
        let k = idx[j];
        lemma_shift_count_movers(users, initial, end, k);
    }
    assert forall|source: ShiftSource, target: ShiftTarget|
        #[trigger] movers(users, initial, end, source, target) > 0 implies exists|j: int|
            0 <= j < r.len() && (#[trigger] r[j]).spec_source() == source && r[j].spec_target()
                == target by {
        lemma_movers_target(users, initial, end, source, target);
        crate::fid_score_shift::lemma_shift_index_roundtrip(0, source, target);
        let k = shift_index(source, target).unwrap();
        lemma_shift_count_movers(users, initial, end, k);
        assert(counts[k] != 0);
        let j = choose|j: int| 0 <= j < idx.len() && idx[j] == k;
        assert(r[j].spec_source() == source && r[j].spec_target() == target);
    }
}

/// No user moves to `Removed`.
proof fn lemma_movers_target(
    users: Seq<(Fid, Seq<AnyNativeUserValue>)>,
    initial: int,
    end: int,
    source: ShiftSource,
    target: ShiftTarget,
)
    requires
        movers(users, initial, end, source, target) > 0,
    ensures
        target != ShiftTarget::Removed,
    decreases users.len(),
{
    if movers(users.drop_last(), initial, end, source, target) > 0 {
        lemma_movers_target(users.drop_last(), initial, end, source, target);
    }
}

/// A user of users with distinct fids is among the fids of the users a predicate keeps
/// exactly when the predicate keeps it.
pub proof fn lemma_fids_of_filter(
    users: Seq<(Fid, Seq<AnyNativeUserValue>)>,
    p: spec_fn((Fid, Seq<AnyNativeUserValue>)) -> bool,
    i: int,
)
    requires
        crate::user_collection::fids_unique(users),
        0 <= i < users.len(),
    ensures
        fids_of(users.filter(p)).contains(users[i].0) <==> p(users[i]),
{
    broadcast use vstd::seq_lib::group_filter_ensures;

    let f = users.filter(p);
    if p(users[i]) {
        users.lemma_filter_contains(p, i);
        let k = choose|k: int| 0 <= k < f.len() && f[k] == users[i];
        assert(fids_of(f)[k] == users[i].0);
    }
    if fids_of(f).contains(users[i].0) {
        let k = choose|k: int| 0 <= k < fids_of(f).len() && fids_of(f)[k] == users[i].0;
        assert(f.contains(f[k]));
        users.lemma_filter_contains_rev(p, f[k]);
        let m = choose|m: int| 0 <= m < users.len() && users[m] == f[k];
        assert(users[m].0 == users[i].0);
        assert(m == i);
        assert(p(f[k]));
    }
}

/// At a day at or after every update, the update that counts is the latest update.
pub proof fn lemma_latest_at_late_day(ups: Seq<DatedSpamUpdate>, d: int)
    requires
        forall|i: int| 0 <= i < ups.len() ==> #[trigger] day_of(ups[i]) <= d,
    ensures
        crate::user_with_spam_data::latest_update_at(ups, d) == latest_update(ups),
    decreases ups.len(),
{
    if ups.len() > 0 {
        let prefix = ups.drop_last();
        assert forall|i: int| 0 <= i < prefix.len() implies #[trigger] day_of(prefix[i]) <= d by {
            assert(prefix[i] == ups[i]);
        }
        lemma_latest_at_late_day(prefix, d);
        assert(day_of(ups[ups.len() - 1]) <= d);
    }
}

/// A user moved from `from` at day `begin` to `to` exactly when its spam score at `begin` is
/// `from` and its spam score is `to` at every day at or after all of its spam updates, whatever
/// the order in which the updates were added.
pub proof fn lemma_moved_between(
    from: SpamScore,
    to: SpamScore,
    begin: int,
    u: (Fid, Seq<AnyNativeUserValue>),
)
    ensures
        moved_between(from, to, begin)(u) <==> ({
            let ups = user_updates(u);
            &&& spam_score_at(ups, begin) == Some(from)
            &&& ups.len() > 0
            &&& forall|d: int|
                (forall|k: int| 0 <= k < ups.len() ==> #[trigger] day_of(ups[k]) <= d)
                    ==> #[trigger] spam_score_at(ups, d) == Some(to)
        }),
{
    let ups = user_updates(u);
    lemma_latest_update(ups);
    if ups.len() > 0 {
        let e = latest_update(ups).unwrap();
        assert forall|d: int|
            (forall|k: int| 0 <= k < ups.len() ==> #[trigger] day_of(ups[k]) <= d)
                implies #[trigger] spam_score_at(ups, d) == Some(e.spec_inner().spec_score()) by {
            lemma_latest_at_late_day(ups, d);
        }
        let d0 = day_of(e);
        assert forall|k: int| 0 <= k < ups.len() implies #[trigger] day_of(ups[k]) <= d0 by {}
        assert(spam_score_at(ups, d0) == Some(e.spec_inner().spec_score()));
    }
}

/// A user's earliest spam update is from day `start` to day `end` exactly when one of its
/// spam updates is in that window and no update of the user is earlier than it.
pub proof fn lemma_first_update_within(start: int, end: int, u: (Fid, Seq<AnyNativeUserValue>))
    ensures
        first_update_within(start, end)(u) <==> ({
            let ups = user_updates(u);
            exists|m: int|
                0 <= m < ups.len() && start <= #[trigger] day_of(ups[m]) <= end && forall|q: int|
                    0 <= q < ups.len() ==> day_of(ups[m]) <= #[trigger] day_of(ups[q])
        }),
{
    let ups = user_updates(u);
    lemma_earliest_update(ups);
    if ups.len() > 0 {
        let e = earliest_update(ups).unwrap();
        let j = choose|j: int| 0 <= j < ups.len() && ups[j] == e;
        if first_update_within(start, end)(u) {
            assert(day_of(ups[j]) == day_of(e));
        }
        if exists|m: int|
            0 <= m < ups.len() && start <= #[trigger] day_of(ups[m]) <= end && forall|q: int|
                0 <= q < ups.len() ==> day_of(ups[m]) <= #[trigger] day_of(ups[q]) {
            let m = choose|m: int|
                0 <= m < ups.len() && start <= #[trigger] day_of(ups[m]) <= end && forall|q: int|
                    0 <= q < ups.len() ==> day_of(ups[m]) <= #[trigger] day_of(ups[q]);
            assert(day_of(ups[m]) <= day_of(ups[j]));
            assert(day_of(e) <= day_of(ups[m]));
        }
    }
}

/// No move is made by more users than there are.
pub proof fn lemma_shift_count_bound(
    users: Seq<(Fid, Seq<AnyNativeUserValue>)>,
    initial: int,
    end: int,
    k: int,
)
    ensures
        shift_count(users, initial, end, k) <= users.len(),
    decreases users.len(),
{
    if users.len() > 0 {
        lemma_shift_count_bound(users.drop_last(), initial, end, k);
    }
}

/// Every user with a score at the end day makes exactly one of the twelve moves.
pub proof fn lemma_shift_counts_total(
    users: Seq<(Fid, Seq<AnyNativeUserValue>)>,
    initial: int,
    end: int,
)
    ensures
        shift_count(users, initial, end, 0) + shift_count(users, initial, end, 1) + shift_count(
            users,
            initial,
            end,
            2,
        ) + shift_count(users, initial, end, 3) + shift_count(users, initial, end, 4)
            + shift_count(users, initial, end, 5) + shift_count(users, initial, end, 6)
            + shift_count(users, initial, end, 7) + shift_count(users, initial, end, 8)
            + shift_count(users, initial, end, 9) + shift_count(users, initial, end, 10)
            + shift_count(users, initial, end, 11) == scored_count(users, end),
    decreases users.len(),
{
    if users.len() > 0 {
        lemma_shift_counts_total(users.drop_last(), initial, end);
        lemma_latest_update_at(user_updates(users.last()), end);
    }
}

/// The days of the weekly series from day `first` to day `last`: every seventh day from `first`
/// up to `last`, and `last` itself when the series does not reach it.
pub open spec fn weekly_days(first: int, last: int) -> Seq<int> {
    let n = (last - first) / 7 + 1;
    let base = Seq::new(n as nat, |i: int| first + 7 * i);
    if (last - first) % 7 == 0 {
        base
    } else {
        base.push(last)
    }
}

/// The day seven days after the last of the seventh days from day `first` that are at or
/// before day `last`.
pub open spec fn weekly_step_end(first: int, last: int) -> int {
    first + 7 * ((last - first) / 7 + 1)
}

/// The weekly series starts at its first day, ends at its last day, and its days increase.
pub proof fn lemma_weekly_days(first: int, last: int)
    requires
        first <= last,
    ensures
        weekly_days(first, last).len() > 0,
        weekly_days(first, last)[0] == first,
        weekly_days(first, last).last() == last,
        forall|i: int, j: int|
            0 <= i < j < weekly_days(first, last).len() ==> weekly_days(first, last)[i]
                < weekly_days(first, last)[j],
{
    let n = (last - first) / 7 + 1;
    assert(7 * (n - 1) <= last - first) by (nonlinear_arith)
        requires
            n == (last - first) / 7 + 1,
            first <= last,
    ;
    assert((last - first) % 7 == 0 ==> 7 * (n - 1) == last - first) by (nonlinear_arith)
        requires
            n == (last - first) / 7 + 1,
            first <= last,
    ;
    let w = weekly_days(first, last);
    assert forall|i: int, j: int| 0 <= i < j < w.len() implies w[i] < w[j] by {
        if j < n {
            assert(w[i] == first + 7 * i);
            assert(w[j] == first + 7 * j);
        } else {
            assert(w[i] == first + 7 * i);
            assert(7 * i <= 7 * (n - 1));
            assert((last - first) % 7 != 0);
            assert(7 * (n - 1) != last - first);
        }
    }
}

/// All spam updates of the users, user after user.
pub open spec fn flat_updates(users: Seq<(Fid, Seq<AnyNativeUserValue>)>) -> Seq<DatedSpamUpdate>
    decreases users.len(),
{
    if users.len() == 0 {
        Seq::empty()
    } else {
        flat_updates(users.drop_last()) + user_updates(users.last())
    }
}

/// The number of updates dated day `day`.
pub open spec fn count_on_day(updates: Seq<DatedSpamUpdate>, day: int) -> nat
    decreases updates.len(),
{
    if updates.len() == 0 {
        0
    } else {
        count_on_day(updates.drop_last(), day) + if day_of(updates.last()) == day {
            1nat
        } else {
            0nat
        }
    }
}

/// No day has more updates than there are.
pub proof fn lemma_count_on_day_bound(updates: Seq<DatedSpamUpdate>, day: int)
    ensures
        count_on_day(updates, day) <= updates.len(),
    decreases updates.len(),
{
    if updates.len() > 0 {
        lemma_count_on_day_bound(updates.drop_last(), day);
    }
}

/// The updates of the first users come first among all updates.
pub proof fn lemma_flat_updates_prefix(users: Seq<(Fid, Seq<AnyNativeUserValue>)>, i: int)
    requires
        0 <= i < users.len(),
    ensures
        flat_updates(users.take(i + 1)) == flat_updates(users.take(i)) + user_updates(users[i]),
        flat_updates(users.take(i + 1)).len() <= flat_updates(users).len(),
    decreases users.len() - i,
{
    assert(users.take(i + 1).drop_last() =~= users.take(i));
    if i + 1 < users.len() {
        lemma_flat_updates_prefix(users, i + 1);
    } else {
        assert(users.take(i + 1) =~= users);
    }
}

/// The index and the result count the updates of `done`: one entry per day, found by the
/// index, with the number of updates of that day.
pub open spec fn counted(
    index: Map<i32, usize>,
    result: Seq<(Date, usize)>,
    done: Seq<DatedSpamUpdate>,
) -> bool {
    &&& forall|key: i32| #[trigger]
        index.contains_key(key) ==> index[key] < result.len() && result[index[key] as int].0.day_number()
            == key
    &&& forall|j: int|
        0 <= j < result.len() ==> index.contains_key(#[trigger] result[j].0.day_number() as i32)
            && index[result[j].0.day_number() as i32] == j && MIN_DAY <= result[j].0.day_number()
            <= MAX_DAY
    &&& forall|j: int|
        0 <= j < result.len() ==> (#[trigger] result[j]).1 == count_on_day(
            done,
            result[j].0.day_number(),
        ) && result[j].1 > 0
    &&& forall|q: int|
        0 <= q < done.len() ==> index.contains_key(#[trigger] day_of(done[q]) as i32) && MIN_DAY
            <= day_of(done[q]) <= MAX_DAY
}

/// A day none of whose updates is dated has no count.
proof fn lemma_count_on_day_zero(updates: Seq<DatedSpamUpdate>, day: int)
    requires
        forall|q: int| 0 <= q < updates.len() ==> #[trigger] day_of(updates[q]) != day,
    ensures
        count_on_day(updates, day) == 0,
    decreases updates.len(),
{
    if updates.len() > 0 {
        let prefix = updates.drop_last();
        assert forall|q: int| 0 <= q < prefix.len() implies #[trigger] day_of(prefix[q]) != day by {
            assert(prefix[q] == updates[q]);
        }
        lemma_count_on_day_zero(prefix, day);
        assert(updates[updates.len() - 1] == updates.last());
    }
}

/// A day with a count has an update dated so.
proof fn lemma_count_on_day_witness(updates: Seq<DatedSpamUpdate>, day: int)
    requires
        count_on_day(updates, day) > 0,
    ensures
        exists|q: int| 0 <= q < updates.len() && #[trigger] day_of(updates[q]) == day,
{
    if forall|q: int| 0 <= q < updates.len() ==> #[trigger] day_of(updates[q]) != day {
        lemma_count_on_day_zero(updates, day);
    }
}

/// Counting one more update of a day that has an entry adds one to its entry.
proof fn lemma_counted_bump(
    index: Map<i32, usize>,
    old_result: Seq<(Date, usize)>,
    result: Seq<(Date, usize)>,
    before: Seq<DatedSpamUpdate>,
    x: DatedSpamUpdate,
    p: int,
)
    requires
        counted(index, old_result, before),
        MIN_DAY <= day_of(x) <= MAX_DAY,
        index.contains_key(day_of(x) as i32),
        p == index[day_of(x) as i32],
        old_result[p].1 < usize::MAX,
        result == old_result.update(p, (x.spec_date(), (old_result[p].1 + 1) as usize)),
    ensures
        counted(index, result, before.push(x)),
{
    let done = before.push(x);
    assert(done.drop_last() =~= before);
    assert(old_result[p].0.day_number() == day_of(x));
    assert forall|j: int| 0 <= j < result.len() implies (#[trigger] result[j]).1 == count_on_day(
        done,
        result[j].0.day_number(),
    ) && result[j].1 > 0 by {
        if j != p {
            assert(result[j] == old_result[j]);
            assert(old_result[j].0.day_number() != day_of(x));
        }
    }
    assert forall|j: int| 0 <= j < result.len() implies index.contains_key(
        #[trigger] result[j].0.day_number() as i32,
    ) && index[result[j].0.day_number() as i32] == j && MIN_DAY <= result[j].0.day_number()
        <= MAX_DAY by {
        if j != p {
            assert(result[j] == old_result[j]);
        }
    }
    assert forall|q: int| 0 <= q < done.len() implies index.contains_key(
        #[trigger] day_of(done[q]) as i32,
    ) && MIN_DAY <= day_of(done[q]) <= MAX_DAY by {
        if q < before.len() {
            assert(done[q] == before[q]);
        }
    }
}

/// Counting an update of a day without an entry adds an entry of one for it.
proof fn lemma_counted_new(
    old_index: Map<i32, usize>,
    index: Map<i32, usize>,
    old_result: Seq<(Date, usize)>,
    result: Seq<(Date, usize)>,
    before: Seq<DatedSpamUpdate>,
    x: DatedSpamUpdate,
)
    requires
        counted(old_index, old_result, before),
        MIN_DAY <= day_of(x) <= MAX_DAY,
        !old_index.contains_key(day_of(x) as i32),
        old_result.len() < usize::MAX,
        index == old_index.insert(day_of(x) as i32, old_result.len() as usize),
        result == old_result.push((x.spec_date(), 1usize)),
    ensures
        counted(index, result, before.push(x)),
{
    let done = before.push(x);
    let key = day_of(x) as i32;
    assert(done.drop_last() =~= before);
    assert forall|q: int| 0 <= q < before.len() implies #[trigger] day_of(before[q]) != day_of(x) by {
        assert(old_index.contains_key(day_of(before[q]) as i32));
    }
    lemma_count_on_day_zero(before, day_of(x));
    assert forall|k: i32| #[trigger] index.contains_key(k) implies index[k] < result.len()
        && result[index[k] as int].0.day_number() == k by {
        if k != key {
            assert(old_index.contains_key(k));
            assert(result[index[k] as int] == old_result[old_index[k] as int]);
        }
    }
    assert forall|j: int| 0 <= j < result.len() implies index.contains_key(
        #[trigger] result[j].0.day_number() as i32,
    ) && index[result[j].0.day_number() as i32] == j && MIN_DAY <= result[j].0.day_number()
        <= MAX_DAY by {
        if j < old_result.len() {
            assert(result[j] == old_result[j]);
            assert(old_index.contains_key(old_result[j].0.day_number() as i32));
        }
    }
    assert forall|j: int| 0 <= j < result.len() implies (#[trigger] result[j]).1 == count_on_day(
        done,
        result[j].0.day_number(),
    ) && result[j].1 > 0 by {
        if j < old_result.len() {
            assert(result[j] == old_result[j]);
            assert(old_index.contains_key(old_result[j].0.day_number() as i32));
            assert(old_result[j].0.day_number() != day_of(x));
        }
    }
    assert forall|q: int| 0 <= q < done.len() implies index.contains_key(
        #[trigger] day_of(done[q]) as i32,
    ) && MIN_DAY <= day_of(done[q]) <= MAX_DAY by {
        if q < before.len() {
            assert(done[q] == before[q]);
        }
    }
}

/// What the index and result say once every update is counted.
proof fn lemma_counted_result(
    index: Map<i32, usize>,
    result: Seq<(Date, usize)>,
    done: Seq<DatedSpamUpdate>,
)
    requires
        counted(index, result, done),
    ensures
        forall|i: int, j: int|
            0 <= i < result.len() && 0 <= j < result.len() && i != j ==> (#[trigger] result[i]).0
                != (#[trigger] result[j]).0,
        forall|day: int|
            count_on_day(done, day) > 0 ==> exists|j: int|
                0 <= j < result.len() && (#[trigger] result[j]).0.day_number() == day,
{
    assert forall|day: int| count_on_day(done, day) > 0 implies exists|j: int|
        0 <= j < result.len() && (#[trigger] result[j]).0.day_number() == day by {
        lemma_count_on_day_witness(done, day);
        let q = choose|q: int| 0 <= q < done.len() && #[trigger] day_of(done[q]) == day;
        assert(index.contains_key(day_of(done[q]) as i32));
        let j = index[day as i32] as int;
        assert(result[j].0.day_number() == day);
    }
}

/// Error of a set that would have no users with spam data.
#[derive(Debug, Clone, Copy, PartialEq, Eq, Structural)]
pub struct EmptySetError;

/// A set of users that each hold at least one spam update; it is never empty.
#[derive(Debug, Clone)]
pub struct SetWithSpamEntries<'a> {
    set: UsersSubset<'a>,
    earliest_spam_score_date: Date,
    latest_spam_score_date: Date,
}

impl<'a> View for SetWithSpamEntries<'a> {
    type V = Seq<(Fid, Seq<AnyNativeUserValue>)>;

    /// The users of the set, in order.
    closed spec fn view(&self) -> Seq<(Fid, Seq<AnyNativeUserValue>)> {
        self.set@
    }
}

/// The predicate of holding spam data, as a spec closure.
pub open spec fn spam_data_pred() -> spec_fn((Fid, Seq<AnyNativeUserValue>)) -> bool {
    |u: (Fid, Seq<AnyNativeUserValue>)| has_spam_data(u)
}

/// Keeping the users whose keep flag is a predicate of them is filtering by the predicate.
pub proof fn lemma_users_kept_filter<A>(users: Seq<A>, keep: Seq<bool>, pred: spec_fn(A) -> bool)
    requires
        keep.len() == users.len(),
        forall|i: int| 0 <= i < users.len() ==> keep[i] == pred(#[trigger] users[i]),
    ensures
        users_kept(users, keep) == users.filter(pred),
    decreases users.len(),
{
    reveal(Seq::filter);
    if users.len() > 0 {
        let pu = users.drop_last();
        let pk = keep.drop_last();
        assert forall|i: int| 0 <= i < pu.len() implies pk[i] == pred(#[trigger] pu[i]) by {
            assert(pu[i] == users[i]);
        }
        lemma_users_kept_filter(pu, pk, pred);
        assert(keep[keep.len() - 1] == pred(users[users.len() - 1]));
    }
}

/// Whether `user` holds at least one spam update.
fn user_has_spam_data(user: &UserStoreWithNativeUserValue) -> (b: bool)
    ensures
        b == has_spam_data(user@),
{
    user.has::<DatedSpamUpdate>()
}

impl<'a> SetWithSpamEntries<'a> {
    /// The subset is well formed, not empty, every user holds spam data, and the dates are the
    /// earliest and latest of all spam updates.
    pub closed spec fn wf(self) -> bool {
        &&& self.set.wf()
        &&& self.set@.len() > 0
        &&& all_have_spam_data(self.set@)
        &&& set_min_day(self.set@) == Some(self.earliest_spam_score_date.day_number())
        &&& set_max_day(self.set@) == Some(self.latest_spam_score_date.day_number())
    }

    /// The earliest date of a spam update in the set.
    pub closed spec fn spec_earliest(self) -> Date {
        self.earliest_spam_score_date
    }

    /// The latest date of a spam update in the set.
    pub closed spec fn spec_latest(self) -> Date {
        self.latest_spam_score_date
    }

    /// What holds of a well-formed set.
    pub proof fn lemma_wf(self)
        requires
            self.wf(),
        ensures
            self@.len() > 0,
            all_have_spam_data(self@),
            set_min_day(self@) == Some(self.spec_earliest().day_number()),
            set_max_day(self@) == Some(self.spec_latest().day_number()),
            crate::user_collection::fids_unique(self@),
    {
        self.set.lemma_wf_fids_unique();
    }

    /// The earliest date of a spam update of the users of a subset, all of which hold spam data.
    fn earliest_date_of(set: &UsersSubset<'a>) -> (r: Date)
        requires
            set.wf(),
            set@.len() > 0,
            all_have_spam_data(set@),
        ensures
            set_min_day(set@) == Some(r.day_number()),
    {
        proof {
            set.lemma_view_users();
        }
        let users = set.iter();
        let n = users.len();
        let mut best: Option<Date> = None;
        let mut i: usize = 0;
        while i < n
            invariant
                n == users@.len(),
                users@ == set.spec_users(),
                set@.len() == n,
                forall|j: int| 0 <= j < n ==> #[trigger] set@[j] == users@[j]@,
                all_have_spam_data(set@),
                i <= n,
                match best {
                    Some(b) => set_min_day(set@.take(i as int)) == Some(b.day_number()),
                    None => set_min_day(set@.take(i as int)) is None,
                },
            decreases n - i,
        {
            let user: &'a UserStoreWithNativeUserValue = users[i];
            assert(has_spam_data(set@[i as int]));
            let uw = match UserWithSpamData::try_from_user(user) {
                Ok(uw) => uw,
                Err(_) => {
                    return Date::max();
                },
            };
            let e = uw.earliest_spam_update().date();
            proof {
                UserWithSpamData::lemma_of(user);
                assert(set@.take(i + 1).drop_last() =~= set@.take(i as int));
                assert(set@.take(i + 1).last() == user@);
            }
            match best {
                Some(b) => {
                    if e.is_before(&b) {
                        best = Some(e);
                    }
                },
                None => {
                    best = Some(e);
                },
            }
            i = i + 1;
        }
        proof {
            assert(set@.take(n as int) =~= set@);
        }
        match best {
            Some(b) => b,
            None => Date::max(),
        }
    }

    /// The latest date of a spam update of the users of a subset, all of which hold spam data.
    fn latest_date_of(set: &UsersSubset<'a>) -> (r: Date)
        requires
            set.wf(),
            set@.len() > 0,
            all_have_spam_data(set@),
        ensures
            set_max_day(set@) == Some(r.day_number()),
    {
        proof {
            set.lemma_view_users();
        }
        let users = set.iter();
        let n = users.len();
        let mut best: Option<Date> = None;
        let mut i: usize = 0;
        while i < n
            invariant
                n == users@.len(),
                users@ == set.spec_users(),
                set@.len() == n,
                forall|j: int| 0 <= j < n ==> #[trigger] set@[j] == users@[j]@,
                all_have_spam_data(set@),
                i <= n,
                match best {
                    Some(b) => set_max_day(set@.take(i as int)) == Some(b.day_number()),
                    None => set_max_day(set@.take(i as int)) is None,
                },
            decreases n - i,
        {
            let user: &'a UserStoreWithNativeUserValue = users[i];
            assert(has_spam_data(set@[i as int]));
            let uw = match UserWithSpamData::try_from_user(user) {
                Ok(uw) => uw,
                Err(_) => {
                    return Date::max();
                },
            };
            let e = uw.latest_spam_update().date();
            proof {
                UserWithSpamData::lemma_of(user);
                assert(set@.take(i + 1).drop_last() =~= set@.take(i as int));
                assert(set@.take(i + 1).last() == user@);
            }
            match best {
                Some(b) => {
                    if b.is_before(&e) {
                        best = Some(e);
                    }
                },
                None => {
                    best = Some(e);
                },
            }
            i = i + 1;
        }
        proof {
            assert(set@.take(n as int) =~= set@);
        }
        match best {
            Some(b) => b,
            None => Date::max(),
        }
    }

    /// A set of a subset whose users all hold spam data.
    fn from_spam_subset(set: UsersSubset<'a>) -> (r: Option<Self>)
        requires
            set.wf(),
            all_have_spam_data(set@),
        ensures
            r is Some <==> set@.len() > 0,
            r matches Some(s) ==> s.wf() && s@ == set@,
    {
        if set.user_count() == 0 {
            None
        } else {
            let earliest_spam_score_date = Self::earliest_date_of(&set);
            let latest_spam_score_date = Self::latest_date_of(&set);
            Some(SetWithSpamEntries { set, earliest_spam_score_date, latest_spam_score_date })
        }
    }

    /// The set of all the users of `collection` that hold at least one spam update, in their
    /// order; `None` when there is no such user.
    pub fn new(collection: &'a UserCollection) -> (r: Option<Self>)
        requires
            collection.wf(),
        ensures
            r is Some <==> exists|i: int|
                0 <= i < collection@.len() && has_spam_data(#[trigger] collection@[i]),
            r matches Some(s) ==> s.wf() && s@ == collection@.filter(spam_data_pred()),
    {
        let set = UsersSubset::from_filter(collection, user_has_spam_data);
        proof {
            collection.lemma_view_users();
            let keep = choose|keep: Seq<bool>|
                {
                    &&& keep.len() == collection@.len()
                    &&& forall|i: int|
                        0 <= i < keep.len() ==> call_ensures(
                            user_has_spam_data,
                            (&collection.spec_users()[i],),
                            #[trigger] keep[i],
                        )
                    &&& set@ == users_kept(collection@, keep)
                };
            assert forall|i: int| 0 <= i < collection@.len() implies keep[i] == spam_data_pred()(
                #[trigger] collection@[i],
            ) by {
                assert(call_ensures(user_has_spam_data, (&collection.spec_users()[i],), keep[i]));
            }
            lemma_users_kept_filter(collection@, keep, spam_data_pred());
            let f = collection@.filter(spam_data_pred());
            broadcast use vstd::seq_lib::group_filter_ensures;
            assert forall|i: int| 0 <= i < f.len() implies has_spam_data(#[trigger] f[i]) by {
                assert(spam_data_pred()(f[i]));
            }
            if exists|i: int| 0 <= i < collection@.len() && has_spam_data(#[trigger] collection@[i]) {
                let i = choose|i: int| 0 <= i < collection@.len() && has_spam_data(#[trigger] collection@[i]);
                assert(spam_data_pred()(collection@[i]));
                assert(f.contains(collection@[i]));
            }
            if f.len() > 0 {
                assert(f.contains(f[0]));
                collection@.lemma_filter_contains_rev(spam_data_pred(), f[0]);
                assert(spam_data_pred()(f[0]));
            }
        }
        Self::from_spam_subset(set)
    }

    /// Whether `keep` holds, for each user of the set in order, an answer that `filter` can
    /// give for it.
    pub open spec fn answers<F: Fn(&UserWithSpamData<'a>) -> bool>(self, filter: F, keep: Seq<bool>) -> bool {
        &&& keep.len() == self@.len()
        &&& forall|i: int|
            0 <= i < keep.len() ==> filter.ensures(
                (&UserWithSpamData::of(self.spec_users()[i]),),
                #[trigger] keep[i],
            )
    }

    /// What [`SetWithSpamEntries::filtered`] returns: for answers of `filter` to the users, no
    /// set when it keeps none of them, and else the set of those it keeps.
    pub open spec fn filtered_outcome<F: Fn(&UserWithSpamData<'a>) -> bool>(self, filter: F, r: Option<Self>) -> bool {
        exists|keep: Seq<bool>|
            {
                &&& #[trigger] self.answers(filter, keep)
                &&& r is None <==> users_kept(self@, keep).len() == 0
                &&& r matches Some(s) ==> s.wf() && s@ == users_kept(self@, keep)
            }
    }

    /// What [`SetWithSpamEntries::filter`] does, from `self` to `after` with result `r`: for
    /// answers of `filter` to the users, the set stays as it is and the result is `None` when it
    /// keeps none of them, and else the set becomes the users it keeps.
    pub open spec fn filter_outcome<F: Fn(&UserWithSpamData<'a>) -> bool>(self, filter: F, after: Self, r: Option<()>) -> bool {
        exists|keep: Seq<bool>|
            {
                &&& #[trigger] self.answers(filter, keep)
                &&& r is None <==> users_kept(self@, keep).len() == 0
                &&& r is None ==> after == self
                &&& r is Some ==> after@ == users_kept(self@, keep)
            }
    }

    /// For a predicate that gives each user one answer, [`SetWithSpamEntries::filter`] keeps
    /// exactly the users of the set that [`SetWithSpamEntries::filtered`] returns, and leaves the
    /// set as it is exactly when `filtered` returns none.
    pub proof fn lemma_filter_agrees_with_filtered<F: Fn(&UserWithSpamData<'a>) -> bool>(
        self,
        filter: F,
        filtered: Option<Self>,
        after: Self,
        r: Option<()>,
    )
        requires
            forall|u: &UserWithSpamData<'a>, b1: bool, b2: bool|
                filter.ensures((u,), b1) && filter.ensures((u,), b2) ==> b1 == b2,
            self.filtered_outcome(filter, filtered),
            self.filter_outcome(filter, after, r),
        ensures
            r is None <==> filtered is None,
            r is None ==> after == self,
            filtered matches Some(s) ==> after@ == s@,
    {
        let k1 = choose|keep: Seq<bool>|
            {
                &&& #[trigger] self.answers(filter, keep)
                &&& filtered is None <==> users_kept(self@, keep).len() == 0
                &&& filtered matches Some(s) ==> s.wf() && s@ == users_kept(self@, keep)
            };
        let k2 = choose|keep: Seq<bool>|
            {
                &&& #[trigger] self.answers(filter, keep)
                &&& r is None <==> users_kept(self@, keep).len() == 0
                &&& r is None ==> after == self
                &&& r is Some ==> after@ == users_kept(self@, keep)
            };
        assert forall|i: int| 0 <= i < k1.len() implies k1[i] == k2[i] by {
            let u = &UserWithSpamData::of(self.spec_users()[i]);
            assert(filter.ensures((u,), k1[i]));
            assert(filter.ensures((u,), k2[i]));
        }
        assert(k1 =~= k2);
    }

    /// The users of the set, in order.
    pub closed spec fn spec_users(self) -> Seq<&'a UserStoreWithNativeUserValue> {
        self.set.spec_users()
    }

    pub proof fn lemma_view_users(self)
        ensures
            self@.len() == self.spec_users().len(),
            forall|i: int| 0 <= i < self@.len() ==> #[trigger] self@[i] == self.spec_users()[i]@,
    {
        self.set.lemma_view_users();
    }

    /// The set of the users of `value` that hold spam data, in their order. At least one must.
    pub fn try_from(value: UsersSubset<'a>) -> (r: Result<Self, EmptySetError>)
        requires
            value.wf(),
            exists|i: int| 0 <= i < value@.len() && has_spam_data(#[trigger] value@[i]),
        ensures
            r matches Ok(s) && s.wf() && s@ == value@.filter(spam_data_pred()),
    {
        let set = value.filtered(user_has_spam_data);
        proof {
            value.lemma_view_users();
            let keep = choose|keep: Seq<bool>|
                {
                    &&& keep.len() == value@.len()
                    &&& forall|i: int|
                        0 <= i < keep.len() ==> call_ensures(
                            user_has_spam_data,
                            (value.spec_users()[i],),
                            #[trigger] keep[i],
                        )
                    &&& set@ == users_kept(value@, keep)
                };
            assert forall|i: int| 0 <= i < value@.len() implies keep[i] == spam_data_pred()(
                #[trigger] value@[i],
            ) by {
                assert(call_ensures(user_has_spam_data, (value.spec_users()[i],), keep[i]));
            }
            lemma_users_kept_filter(value@, keep, spam_data_pred());
            let f = value@.filter(spam_data_pred());
            broadcast use vstd::seq_lib::group_filter_ensures;
            assert forall|i: int| 0 <= i < f.len() implies has_spam_data(#[trigger] f[i]) by {
                assert(spam_data_pred()(f[i]));
            }
            let i = choose|i: int| 0 <= i < value@.len() && has_spam_data(#[trigger] value@[i]);
            assert(spam_data_pred()(value@[i]));
            assert(f.contains(value@[i]));
        }
        match Self::from_spam_subset(set) {
            Some(s) => Ok(s),
            None => Err(EmptySetError),
        }
    }

    /// A new set of the users for which `filter` returns true, in their order; `None` when
    /// there would be none.
    pub fn filtered<F: Fn(&UserWithSpamData<'a>) -> bool>(&self, filter: F) -> (r: Option<Self>)
        requires
            self.wf(),
            forall|u: &UserWithSpamData<'a>| #[trigger] filter.requires((u,)),
        ensures
            self.filtered_outcome(filter, r),
    {
        proof {
            self.lemma_wf();
            self.lemma_view_users();
        }
        let users = self.set.iter();
        let n = users.len();
        let mut result = UsersSubset::new();
        let ghost mut keep: Seq<bool> = Seq::empty();
        let mut i: usize = 0;
        while i < n
            invariant
                n == users@.len(),
                users@ == self.spec_users(),
                self@.len() == n,
                forall|j: int| 0 <= j < n ==> #[trigger] self@[j] == users@[j]@,
                all_have_spam_data(self@),
                crate::user_collection::fids_unique(self@),
                i <= n,
                result.wf(),
                forall|u: &UserWithSpamData<'a>| #[trigger] filter.requires((u,)),
                keep.len() == i,
                forall|j: int|
                    0 <= j < i ==> filter.ensures(
                        (&UserWithSpamData::of(users@[j]),),
                        #[trigger] keep[j],
                    ),
                result@ == users_kept(self@.take(i as int), keep),
                all_have_spam_data(result@),
            decreases n - i,
        {
            let user: &'a UserStoreWithNativeUserValue = users[i];
            assert(has_spam_data(self@[i as int]));
            let uw = match UserWithSpamData::try_from_user(user) {
                Ok(uw) => uw,
                Err(_) => {
                    return None;
                },
            };
            let b = filter(&uw);
            proof {
                let old_keep = keep;
                keep = keep.push(b);
                assert(self@.take(i + 1).drop_last() =~= self@.take(i as int));
                assert(keep.drop_last() =~= old_keep);
                assert(self@.take(i + 1).last() == user@);
            }
            if b {
                proof {
                    crate::subset::lemma_kept_lacks_next_fid(self@, keep.drop_last(), i as int);
                }
                let ghost before = result@;
                result.add_user(user);
                proof {
                    assert(result@ == before.push(user@));
                    assert forall|j: int| 0 <= j < result@.len() implies has_spam_data(
                        #[trigger] result@[j],
                    ) by {
                        if j < before.len() {
                            assert(result@[j] == before[j]);
                        }
                    }
                }
            }
            i = i + 1;
        }
        proof {
            assert(self@.take(n as int) =~= self@);
            assert(self.answers(filter, keep));
        }
        Self::from_spam_subset(result)
    }

    /// Keep only the users for which `filter` returns true, unless none would be kept: then the
    /// set stays as it is and the result is `None`.
    pub fn filter<F: Fn(&UserWithSpamData<'a>) -> bool>(&mut self, filter: F) -> (r: Option<()>)
        requires
            old(self).wf(),
            forall|u: &UserWithSpamData<'a>| #[trigger] filter.requires((u,)),
        ensures
            final(self).wf(),
            old(self).filter_outcome(filter, *final(self), r),
    {
        match self.filtered(filter) {
            Some(s) => {
                *self = s;
                Some(())
            },
            None => None,
        }
    }

    /// The user with fid `fid`, if it is in the set.
    pub fn fid(&self, fid: usize) -> (r: Option<UserWithSpamData<'a>>)
        requires
            self.wf(),
        ensures
            r is Some <==> crate::user_collection::has_fid(self@, Fid::spec_new(fid as u64)),
            r matches Some(u) ==> u.spec_user()@ == self@[crate::user_collection::position_of_fid(
                self@,
                Fid::spec_new(fid as u64),
            )],
    {
        proof {
            self.lemma_wf();
        }
        let f = Fid::new(fid as u64);
        match self.set.user(f) {
            Some(user) => {
                proof {
                    let p = crate::user_collection::position_of_fid(self@, f);
                    assert(has_spam_data(self@[p]));
                    UserWithSpamData::lemma_of(user);
                }
                match UserWithSpamData::try_from_user(user) {
                    Ok(u) => Some(u),
                    Err(_) => None,
                }
            },
            None => None,
        }
    }

    /// The user with fid `fid`, if it is in the set.
    pub fn user(&self, fid: usize) -> (r: Option<UserWithSpamData<'a>>)
        requires
            self.wf(),
        ensures
            r is Some <==> crate::user_collection::has_fid(self@, Fid::spec_new(fid as u64)),
            r matches Some(u) ==> u.spec_user()@ == self@[crate::user_collection::position_of_fid(
                self@,
                Fid::spec_new(fid as u64),
            )],
    {
        self.fid(fid)
    }

    /// The earliest date of a spam update in the set.
    pub fn earliest_spam_score_date(&self) -> (r: Date)
        ensures
            r == self.spec_earliest(),
    {
        self.earliest_spam_score_date
    }

    /// The latest date of a spam update in the set.
    pub fn latest_spam_score_date(&self) -> (r: Date)
        ensures
            r == self.spec_latest(),
    {
        self.latest_spam_score_date
    }

    /// The number of users in the set.
    pub fn user_count(&self) -> (r: usize)
        requires
            self.wf(),
        ensures
            r == self@.len(),
    {
        self.set.user_count()
    }

    /// The count of each spam score at `date` over the users of the set.
    fn count_at(&self, date: Date) -> (r: SpamScoreCount)
        requires
            self.wf(),
        ensures
            forall|s: SpamScore| #[trigger]
                r.count_of(s) == score_count_at(self@, date.day_number(), s),
    {
        proof {
            self.lemma_wf();
            self.lemma_view_users();
        }
        let ghost day = date.day_number();
        let users = self.set.iter();
        let n = users.len();
        let mut count = SpamScoreCount::default();
        let mut i: usize = 0;
        while i < n
            invariant
                n == users@.len(),
                users@ == self.spec_users(),
                self@.len() == n,
                forall|j: int| 0 <= j < n ==> #[trigger] self@[j] == users@[j]@,
                all_have_spam_data(self@),
                i <= n,
                day == date.day_number(),
                forall|s: SpamScore| #[trigger]
                    count.count_of(s) == score_count_at(self@.take(i as int), day, s),
            decreases n - i,
        {
            let user: &'a UserStoreWithNativeUserValue = users[i];
            assert(has_spam_data(self@[i as int]));
            let uw = match UserWithSpamData::try_from_user(user) {
                Ok(uw) => uw,
                Err(_) => {
                    return count;
                },
            };
            let score = uw.spam_score_at_date(date);
            proof {
                UserWithSpamData::lemma_of(user);
                assert(self@.take(i + 1).drop_last() =~= self@.take(i as int));
                assert(self@.take(i + 1).last() == user@);
                lemma_score_counts_total(self@.take(i as int), day);
            }
            match score {
                Some(s) => {
                    count.add(s);
                },
                None => {},
            }
            i = i + 1;
        }
        proof {
            assert(self@.take(n as int) =~= self@);
        }
        count
    }

    /// The count of each spam score at `date`, taking for each user the spam score that counts
    /// then; `None` if `date` is before every spam update of the set.
    pub fn spam_score_count_at_date(&self, date: Date) -> (r: Option<DatedSpamScoreCount>)
        requires
            self.wf(),
        ensures
            r is None <==> date.day_number() < self.spec_earliest().day_number(),
            r matches Some(c) ==> c.spec_date() == date && forall|s: SpamScore| #[trigger]
                c.spec_inner().count_of(s) == score_count_at(self@, date.day_number(), s),
    {
        if date.is_before(&self.earliest_spam_score_date) {
            return None;
        }
        if self.user_count() == 0 {
            return None;
        }
        let count = self.count_at(date);
        Some(crate::dated::Dated::new(count, date))
    }

    /// The count of each current spam score, the current score of a user being that of its
    /// latest update; every user of the set is counted.
    pub fn current_spam_score_count(&self) -> (r: DatedSpamScoreCount)
        requires
            self.wf(),
        ensures
            r.spec_date() == self.spec_latest(),
            forall|s: SpamScore| #[trigger]
                r.spec_inner().count_of(s) == score_count_at(
                    self@,
                    self.spec_latest().day_number(),
                    s,
                ),
            r.spec_inner().spec_total() == self@.len(),
    {
        proof {
            self.lemma_wf();
            let day = self.spec_latest().day_number();
            lemma_set_days(self@);
            assert forall|i: int| 0 <= i < self@.len() implies scored_by(#[trigger] self@[i], day) by {
                assert(has_spam_data(self@[i]));
                lemma_user_min_le_max(self@[i]);
            }
            lemma_scored_count_all(self@, day);
            lemma_score_counts_total(self@, day);
            assert(self.spec_earliest().day_number() <= day);
        }
        let count = self.count_at(self.latest_spam_score_date);
        assert(count.count_of(SpamScore::Zero) + count.count_of(SpamScore::One) + count.count_of(
            SpamScore::Two,
        ) == self@.len());
        crate::dated::Dated::new(count, self.latest_spam_score_date)
    }

    /// The number of users of the set that have a spam score at `date`.
    pub fn user_count_with_spam_score_count_at_date(&self, date: Date) -> (r: u64)
        requires
            self.wf(),
        ensures
            r == scored_count(self@, date.day_number()),
    {
        proof {
            self.lemma_wf();
            self.lemma_view_users();
        }
        let ghost day = date.day_number();
        let users = self.set.iter();
        let n = users.len();
        let mut count: u64 = 0;
        let mut i: usize = 0;
        while i < n
            invariant
                n == users@.len(),
                users@ == self.spec_users(),
                self@.len() == n,
                forall|j: int| 0 <= j < n ==> #[trigger] self@[j] == users@[j]@,
                all_have_spam_data(self@),
                i <= n,
                day == date.day_number(),
                count == scored_count(self@.take(i as int), day),
                count <= i,
            decreases n - i,
        {
            let user: &'a UserStoreWithNativeUserValue = users[i];
            assert(has_spam_data(self@[i as int]));
            let uw = match UserWithSpamData::try_from_user(user) {
                Ok(uw) => uw,
                Err(_) => {
                    return count;
                },
            };
            let earliest = uw.earliest_spam_update().date();
            proof {
                UserWithSpamData::lemma_of(user);
                assert(self@.take(i + 1).drop_last() =~= self@.take(i as int));
                assert(self@.take(i + 1).last() == user@);
            }
            if earliest.is_at_or_before(&date) {
                count = count + 1;
            }
            i = i + 1;
        }
        proof {
            assert(self@.take(n as int) =~= self@);
        }
        count
    }

    /// The number of users of the set for each of the twelve moves between `initial_date` and
    /// `end_date`.
    fn shift_count_vec(&self, initial_date: Date, end_date: Date) -> (r: Vec<usize>)
        requires
            self.wf(),
        ensures
            r@.len() == 12,
            forall|k: int|
                0 <= k < 12 ==> #[trigger] r@[k] == shift_count(
                    self@,
                    initial_date.day_number(),
                    end_date.day_number(),
                    k,
                ),
    {
        proof {
            self.lemma_wf();
            self.lemma_view_users();
        }
        let ghost initial = initial_date.day_number();
        let ghost end = end_date.day_number();
        let users = self.set.iter();
        let n = users.len();
        let mut counts: Vec<usize> = vec![0usize; 12];
        let mut i: usize = 0;
        while i < n
            invariant
                n == users@.len(),
                users@ == self.spec_users(),
                self@.len() == n,
                forall|j: int| 0 <= j < n ==> #[trigger] self@[j] == users@[j]@,
                all_have_spam_data(self@),
                i <= n,
                end == end_date.day_number(),
                initial == initial_date.day_number(),
                counts@.len() == 12,
                forall|k: int|
                    0 <= k < 12 ==> #[trigger] counts@[k] == shift_count(
                        self@.take(i as int),
                        initial,
                        end,
                        k,
                    ),
            decreases n - i,
        {
            let user: &'a UserStoreWithNativeUserValue = users[i];
            assert(has_spam_data(self@[i as int]));
            let uw = match UserWithSpamData::try_from_user(user) {
                Ok(uw) => uw,
                Err(_) => {
                    return counts;
                },
            };
            proof {
                UserWithSpamData::lemma_of(user);
                assert(self@.take(i + 1).drop_last() =~= self@.take(i as int));
                assert(self@.take(i + 1).last() == user@);
            }
            match uw.spam_score_at_date(end_date) {
                Some(target) => {
                    let source: usize = match uw.spam_score_at_date(initial_date) {
                        Some(s) => s.number(),
                        None => 3,
                    };
                    let index = source * 3 + target.number();
                    proof {
                        lemma_shift_count_bound(self@.take(i as int), initial, end, index as int);
                    }
                    counts.set(index, counts[index] + 1);
                },
                None => {},
            }
            i = i + 1;
        }
        proof {
            assert(self@.take(n as int) =~= self@);
        }
        counts
    }

    /// The moves between spam scores from `initial_date` to `days` days later (or to the latest
    /// date when that is past it), of the users with a score at that later date: one entry per
    /// move that some user made, in the order of the move indices, with its number of users.
    pub fn spam_changes_with_fid_score_shift(&self, initial_date: Date, days: u64) -> (r: Vec<
        FidScoreShift,
    >)
        requires
            self.wf(),
        ensures
            is_shift_list(r@, shift_counts(self@, initial_date.day_number(), end_day(initial_date.day_number(), days))),
            forall|j: int|
                0 <= j < r@.len() ==> (#[trigger] r@[j]).spec_count() == movers(
                    self@,
                    initial_date.day_number(),
                    end_day(initial_date.day_number(), days),
                    r@[j].spec_source(),
                    r@[j].spec_target(),
                ) && r@[j].spec_count() > 0,
            forall|source: ShiftSource, target: ShiftTarget|
                #[trigger] movers(
                    self@,
                    initial_date.day_number(),
                    end_day(initial_date.day_number(), days),
                    source,
                    target,
                ) > 0 ==> exists|j: int|
                    0 <= j < r@.len() && (#[trigger] r@[j]).spec_source() == source
                        && r@[j].spec_target() == target,
    {
        let end_date = match initial_date.checked_add_days(days) {
            Some(d) => d,
            None => Date::max(),
        };
        let ghost initial = initial_date.day_number();
        let ghost end = end_day(initial, days);
        assert(end_date.day_number() == end);
        let counts = self.shift_count_vec(initial_date, end_date);
        let ghost all_counts = shift_counts(self@, initial, end);
        let mut result: Vec<FidScoreShift> = Vec::new();
        let mut k: usize = 0;
        while k < 12
            invariant
                k <= 12,
                counts@.len() == 12,
                all_counts == shift_counts(self@, initial, end),
                forall|q: int| 0 <= q < 12 ==> #[trigger] counts@[q] == all_counts[q],
                result@.len() == nonzero_indices(all_counts.take(k as int)).len(),
                forall|j: int|
                    0 <= j < result@.len() ==> Some(
                        ((#[trigger] result@[j]).spec_source(), result@[j].spec_target()),
                    ) == shift_of_index(nonzero_indices(all_counts.take(k as int))[j])
                        && result@[j].spec_count() == all_counts[nonzero_indices(
                        all_counts.take(k as int),
                    )[j]],
            decreases 12 - k,
        {
            proof {
                assert(all_counts.take(k + 1).drop_last() =~= all_counts.take(k as int));
            }
            if counts[k] != 0 {
                match FidScoreShift::from_index(k) {
                    Ok(shift) => {
                        result.push(FidScoreShift::new(shift.source(), shift.target(), counts[k]));
                    },
                    Err(_) => {},
                }
            }
            k = k + 1;
        }
        proof {
            assert(all_counts.take(12) =~= all_counts);
            lemma_shift_list_movers(self@, initial, end, result@);
        }
        result
    }

    /// The spam score counts of the set at a weekly cadence: the first at the earliest date of
    /// a spam update in the set, then every seventh day up to the latest such date, and last at
    /// that latest date even when it is fewer than seven days after the one before. The day
    /// seven days after the last of the seventh days must be a date.
    pub fn weekly_spam_score_counts(&self) -> (r: Vec<DatedSpamScoreCount>)
        requires
            self.wf(),
            weekly_step_end(self.spec_earliest().day_number(), self.spec_latest().day_number())
                <= MAX_DAY,
        ensures
            ({
                let days = weekly_days(
                    self.spec_earliest().day_number(),
                    self.spec_latest().day_number(),
                );
                &&& r@.len() == days.len()
                &&& forall|j: int|
                    0 <= j < r@.len() ==> (#[trigger] r@[j]).spec_date().day_number() == days[j]
                        && forall|s: SpamScore|
                        r@[j].spec_inner().count_of(s) == score_count_at(self@, days[j], s)
            }),
    {
        proof {
            self.lemma_wf();
            lemma_set_days(self@);
        }
        let ghost first = self.earliest_spam_score_date.day_number();
        let ghost last = self.latest_spam_score_date.day_number();
        let ghost n = (last - first) / 7 + 1;
        proof {
            let j = choose|i: int|
                0 <= i < self@.len() && set_min_day(self@).unwrap() == #[trigger] min_day(
                    user_updates(self@[i]),
                ).unwrap();
            assert(has_spam_data(self@[j]));
            lemma_user_min_le_max(self@[j]);
            assert(first <= last);
            assert(7 * (n - 1) <= last - first < 7 * n) by (nonlinear_arith)
                requires
                    n == (last - first) / 7 + 1,
                    first <= last,
            ;
        }
        let ghost days = weekly_days(first, last);
        let mut date = self.earliest_spam_score_date;
        let end = self.latest_spam_score_date;
        let mut result: Vec<DatedSpamScoreCount> = Vec::new();
        while date.is_at_or_before(&end)
            invariant
                self.wf(),
                first == self.spec_earliest().day_number(),
                last == self.spec_latest().day_number(),
                end == self.spec_latest(),
                first + 7 * n <= MAX_DAY,
                first <= last,
                n == (last - first) / 7 + 1,
                7 * (n - 1) <= last - first < 7 * n,
                days == weekly_days(first, last),
                date.day_number() == first + 7 * result@.len(),
                result@.len() <= n,
                date.day_number() <= last + 7,
                forall|j: int|
                    0 <= j < result@.len() ==> (#[trigger] result@[j]).spec_date().day_number()
                        == first + 7 * j && forall|s: SpamScore|
                        result@[j].spec_inner().count_of(s) == score_count_at(
                            self@,
                            first + 7 * j,
                            s,
                        ),
            decreases last + 8 - date.day_number(),
        {
            proof {
                assert(result@.len() < n) by (nonlinear_arith)
                    requires
                        first + 7 * result@.len() <= last,
                        last - first < 7 * n,
                ;
                assert(first + 7 * (result@.len() + 1) <= first + 7 * n) by (nonlinear_arith)
                    requires
                        result@.len() < n,
                ;
            }
            let count = self.count_at(date);
            result.push(crate::dated::Dated::new(count, date));
            date = match date.checked_add_days(7) {
                Some(d) => d,
                None => {
                    return result;
                },
            };
        }
        proof {
            assert(result@.len() == n) by (nonlinear_arith)
                requires
                    first + 7 * result@.len() > last,
                    result@.len() <= n,
                    7 * (n - 1) <= last - first,
            ;
        }
        let last_pushed = result.len() - 1;
        if result[last_pushed].date().is_before(&end) {
            let count = self.count_at(end);
            result.push(crate::dated::Dated::new(count, end));
            proof {
                assert(7 * (n - 1) != last - first);
                assert((last - first) % 7 != 0) by (nonlinear_arith)
                    requires
                        7 * (n - 1) != last - first,
                        n == (last - first) / 7 + 1,
                ;
            }
        } else {
            proof {
                assert((last - first) % 7 == 0) by (nonlinear_arith)
                    requires
                        7 * (n - 1) == last - first,
                        n == (last - first) / 7 + 1,
                ;
            }
        }
        result
    }

    /// For each date of a spam update in the set, the number of spam updates at that date; each
    /// date appears once.
    pub fn count_updates(&self) -> (r: Vec<(Date, usize)>)
        requires
            self.wf(),
            flat_updates(self@).len() <= usize::MAX,
        ensures
            forall|j: int|
                0 <= j < r@.len() ==> (#[trigger] r@[j]).1 == count_on_day(
                    flat_updates(self@),
                    r@[j].0.day_number(),
                ) && r@[j].1 > 0,
            forall|i: int, j: int|
                0 <= i < r@.len() && 0 <= j < r@.len() && i != j ==> (#[trigger] r@[i]).0
                    != (#[trigger] r@[j]).0,
            forall|day: int|
                count_on_day(flat_updates(self@), day) > 0 ==> exists|j: int|
                    0 <= j < r@.len() && (#[trigger] r@[j]).0.day_number() == day,
    {
        proof {
            self.lemma_wf();
            self.lemma_view_users();
        }
        let users = self.set.iter();
        let n = users.len();
        let mut index: HashMap<i32, usize> = HashMap::new();
        let mut result: Vec<(Date, usize)> = Vec::new();
        let ghost mut done: Seq<DatedSpamUpdate> = Seq::empty();
        let mut i: usize = 0;
        while i < n
            invariant
                n == users@.len(),
                users@ == self.spec_users(),
                self@.len() == n,
                forall|q: int| 0 <= q < n ==> #[trigger] self@[q] == users@[q]@,
                all_have_spam_data(self@),
                flat_updates(self@).len() <= usize::MAX,
                i <= n,
                done == flat_updates(self@.take(i as int)),
                done.len() <= flat_updates(self@).len(),
                result@.len() <= done.len(),
                counted(index@, result@, done),
            decreases n - i,
        {
            let user: &'a UserStoreWithNativeUserValue = users[i];
            assert(has_spam_data(self@[i as int]));
            let uw = match UserWithSpamData::try_from_user(user) {
                Ok(uw) => uw,
                Err(_) => {
                    return result;
                },
            };
            proof {
                UserWithSpamData::lemma_of(user);
                lemma_flat_updates_prefix(self@, i as int);
            }
            let ups = uw.dated_spam_updates();
            let ghost start = done;
            let m = ups.len();
            let mut k: usize = 0;
            while k < m
                invariant
                    m == ups@.len(),
                    ups@.len() == user_updates(self@[i as int]).len(),
                    forall|q: int| 0 <= q < m ==> *ups@[q] == user_updates(self@[i as int])[q],
                    k <= m,
                    start.len() + m <= flat_updates(self@).len(),
                    flat_updates(self@).len() <= usize::MAX,
                    done == start + user_updates(self@[i as int]).take(k as int),
                    result@.len() <= done.len(),
                    counted(index@, result@, done),
                decreases m - k,
            {
                let x: DatedSpamUpdate = *ups[k];
                let d = x.date();
                let key = d.days_from_ce();
                proof {
                    lemma_count_on_day_bound(done, day_of(x));
                    assert(user_updates(self@[i as int]).take(k + 1) =~= user_updates(
                        self@[i as int],
                    ).take(k as int).push(x));
                }
                let ghost before = done;
                proof {
                    done = done.push(x);
                    assert(done == start + user_updates(self@[i as int]).take(k + 1));
                }
                let ghost old_result = result@;
                let ghost old_index = index@;
                match index.get(&key) {
                    Some(p) => {
                        let p = *p;
                        let c = result[p].1;
                        proof {
                            lemma_count_on_day_bound(before, day_of(x));
                        }
                        result.set(p, (d, c + 1));
                        proof {
                            lemma_counted_bump(index@, old_result, result@, before, x, p as int);
                        }
                    },
                    None => {
                        index.insert(key, result.len());
                        result.push((d, 1));
                        proof {
                            lemma_counted_new(old_index, index@, old_result, result@, before, x);
                        }
                    },
                }
                k = k + 1;
            }
            proof {
                assert(user_updates(self@[i as int]).take(m as int) =~= user_updates(self@[i as int]));
            }
            i = i + 1;
        }
        proof {
            assert(self@.take(n as int) =~= self@);
            lemma_counted_result(index@, result@, done);
        }
        result
    }


    /// The users of the set, each as a [`UserWithSpamData`], in order.
    pub fn into_iter(self) -> (r: Vec<UserWithSpamData<'a>>)
        requires
            self.wf(),
        ensures
            r@.len() == self@.len(),
            forall|j: int|
                0 <= j < r@.len() ==> #[trigger] r@[j] == UserWithSpamData::of(self.spec_users()[j]),
    {
        proof {
            self.lemma_wf();
            self.lemma_view_users();
        }
        let users = self.set.iter();
        let n = users.len();
        let mut result: Vec<UserWithSpamData<'a>> = Vec::new();
        let mut i: usize = 0;
        while i < n
            invariant
                n == users@.len(),
                users@ == self.spec_users(),
                self@.len() == n,
                forall|q: int| 0 <= q < n ==> #[trigger] self@[q] == users@[q]@,
                all_have_spam_data(self@),
                i <= n,
                result@.len() == i,
                forall|j: int|
                    0 <= j < i ==> #[trigger] result@[j] == UserWithSpamData::of(users@[j]),
            decreases n - i,
        {
            let user: &'a UserStoreWithNativeUserValue = users[i];
            assert(has_spam_data(self@[i as int]));
            match UserWithSpamData::try_from_user(user) {
                Ok(uw) => result.push(uw),
                Err(_) => {
                    return result;
                },
            }
            i = i + 1;
        }
        result
    }
}


/// Whether user `u` has spam score `score` at day `day`.
pub open spec fn score_is(score: SpamScore, day: int) -> spec_fn((Fid, Seq<AnyNativeUserValue>)) -> bool {
    |u: (Fid, Seq<AnyNativeUserValue>)| spam_score_at(user_updates(u), day) == Some(score)
}

/// The users with spam score `score` at day `day`; all of `users` when none has it.
pub open spec fn narrow(
    users: Seq<(Fid, Seq<AnyNativeUserValue>)>,
    score: SpamScore,
    day: int,
) -> Seq<(Fid, Seq<AnyNativeUserValue>)> {
    let kept = users.filter(score_is(score, day));
    if kept.len() > 0 {
        kept
    } else {
        users
    }
}

/// The users that remain of `users` after narrowing them to score `from` at `day`, and then to
/// score `to` at `day`.
pub open spec fn pair_users(
    users: Seq<(Fid, Seq<AnyNativeUserValue>)>,
    from: SpamScore,
    to: SpamScore,
    day: int,
) -> Seq<(Fid, Seq<AnyNativeUserValue>)> {
    narrow(narrow(users, from, day), to, day)
}

/// The fids of `users`, in order.
pub open spec fn fids_of(users: Seq<(Fid, Seq<AnyNativeUserValue>)>) -> Seq<Fid> {
    users.map_values(|u: (Fid, Seq<AnyNativeUserValue>)| u.0)
}

/// Whether the earliest spam update of user `u` is from day `start` to day `end`.
pub open spec fn first_update_within(start: int, end: int) -> spec_fn(
    (Fid, Seq<AnyNativeUserValue>),
) -> bool {
    |u: (Fid, Seq<AnyNativeUserValue>)|
        (min_day(user_updates(u)) matches Some(m) && start <= m && m <= end)
}

/// Whether user `u` has spam score `from` at day `begin` and its latest update has score `to`.
pub open spec fn moved_between(from: SpamScore, to: SpamScore, begin: int) -> spec_fn(
    (Fid, Seq<AnyNativeUserValue>),
) -> bool {
    |u: (Fid, Seq<AnyNativeUserValue>)|
        spam_score_at(user_updates(u), begin) == Some(from) && (latest_update(user_updates(u)) matches Some(x)
            && x.spec_inner().spec_score() == to)
}

impl<'a> SetWithSpamEntries<'a> {
    /// The fids of the users of the set, in order.
    pub fn fids(&self) -> (r: Vec<Fid>)
        requires
            self.wf(),
        ensures
            r@ == fids_of(self@),
    {
        proof {
            self.lemma_view_users();
        }
        let users = self.set.iter();
        let n = users.len();
        let mut result: Vec<Fid> = Vec::new();
        let mut i: usize = 0;
        while i < n
            invariant
                n == users@.len(),
                users@ == self.spec_users(),
                self@.len() == n,
                forall|q: int| 0 <= q < n ==> #[trigger] self@[q] == users@[q]@,
                i <= n,
                result@ == fids_of(self@.take(i as int)),
            decreases n - i,
        {
            let user: &'a UserStoreWithNativeUserValue = users[i];
            result.push(user.fid());
            proof {
                assert(fids_of(self@.take(i + 1)) =~= fids_of(self@.take(i as int)).push(
                    self@[i as int].0,
                ));
            }
            i = i + 1;
        }
        proof {
            assert(self@.take(n as int) =~= self@);
        }
        result
    }

    /// The users of the set that `pred` keeps, as a new set; `None` when it keeps none. `keep`
    /// is what the predicate answers for a user, so that each answer is `pred` of that user.
    fn filtered_by<F: Fn(&UserWithSpamData<'a>) -> bool>(
        &self,
        keep: F,
        pred: Ghost<spec_fn((Fid, Seq<AnyNativeUserValue>)) -> bool>,
    ) -> (r: Option<Self>)
        requires
            self.wf(),
            forall|u: &UserWithSpamData<'a>| #[trigger] keep.requires((u,)),
            forall|u: &UserWithSpamData<'a>, b: bool|
                keep.ensures((u,), b) ==> b == pred@(u.spec_user()@),
        ensures
            r is None <==> self@.filter(pred@).len() == 0,
            r matches Some(s) ==> s.wf() && s@ == self@.filter(pred@),
    {
        let r = self.filtered(keep);
        proof {
            self.lemma_view_users();
            let k = choose|k: Seq<bool>|
                {
                    &&& k.len() == self@.len()
                    &&& forall|i: int|
                        0 <= i < k.len() ==> keep.ensures(
                            (&UserWithSpamData::of(self.spec_users()[i]),),
                            #[trigger] k[i],
                        )
                    &&& r is None <==> users_kept(self@, k).len() == 0
                    &&& r matches Some(s) ==> s.wf() && s@ == users_kept(self@, k)
                };
            assert forall|i: int| 0 <= i < self@.len() implies k[i] == pred@(
                #[trigger] self@[i],
            ) by {
                assert(keep.ensures((&UserWithSpamData::of(self.spec_users()[i]),), k[i]));
                UserWithSpamData::lemma_of(self.spec_users()[i]);
            }
            lemma_users_kept_filter(self@, k, pred@);
        }
        r
    }

    /// The users of the set with spam score `score` at `date`, as a new set; `None` when there
    /// are none.
    fn with_score_at(&self, score: SpamScore, date: Date) -> (r: Option<Self>)
        requires
            self.wf(),
        ensures
            r is None <==> self@.filter(score_is(score, date.day_number())).len() == 0,
            r matches Some(s) ==> s.wf() && s@ == self@.filter(score_is(score, date.day_number())),
    {
        let keep = |u: &UserWithSpamData<'a>| -> (b: bool)
            ensures
                b == (spam_score_at(u.updates(), date.day_number()) == Some(score)),
            {
                match u.spam_score_at_date(date) {
                    Some(s) => s == score,
                    None => false,
                }
            };
        self.filtered_by(keep, Ghost(score_is(score, date.day_number())))
    }

    /// The fids of the users that remain after keeping those with spam score `from` at `date`,
    /// and then of those the ones with spam score `to` at `date`; a step that would keep no
    /// user keeps them all.
    pub fn fids_with_scores_at(&self, from: SpamScore, to: SpamScore, date: Date) -> (r: Vec<Fid>)
        requires
            self.wf(),
        ensures
            r@ == fids_of(pair_users(self@, from, to, date.day_number())),
    {
        match self.with_score_at(from, date) {
            Some(first) => match first.with_score_at(to, date) {
                Some(second) => second.fids(),
                None => first.fids(),
            },
            None => match self.with_score_at(to, date) {
                Some(second) => second.fids(),
                None => self.fids(),
            },
        }
    }

    /// Keep only the users whose earliest spam update is from `start` to `end`, unless none
    /// would be kept: then the set stays as it is and the result is `None`.
    pub fn filter_by_first_update(&mut self, start: Date, end: Date) -> (r: Option<()>)
        requires
            old(self).wf(),
        ensures
            final(self).wf(),
            ({
                let kept = old(self)@.filter(
                    first_update_within(start.day_number(), end.day_number()),
                );
                &&& r is None <==> kept.len() == 0
                &&& r is None ==> *final(self) == *old(self)
                &&& r is Some ==> final(self)@ == kept
            }),
            (r is None) <==> forall|i: int|
                0 <= i < old(self)@.len() ==> !({
                    let ups = user_updates(#[trigger] old(self)@[i]);
                    exists|m: int|
                        0 <= m < ups.len() && start.day_number() <= #[trigger] day_of(ups[m])
                            <= end.day_number() && forall|q: int|
                            0 <= q < ups.len() ==> day_of(ups[m]) <= #[trigger] day_of(ups[q])
                }),
            r is Some ==> forall|i: int|
                0 <= i < old(self)@.len() ==> (final(self)@.contains(#[trigger] old(self)@[i]) <==> ({
                    let ups = user_updates(old(self)@[i]);
                    exists|m: int|
                        0 <= m < ups.len() && start.day_number() <= #[trigger] day_of(ups[m])
                            <= end.day_number() && forall|q: int|
                            0 <= q < ups.len() ==> day_of(ups[m]) <= #[trigger] day_of(ups[q])
                })),
            r is Some ==> forall|k: int|
                0 <= k < final(self)@.len() ==> old(self)@.contains(#[trigger] final(self)@[k]),
    {
        let ghost before = self@;
        let ghost p = first_update_within(start.day_number(), end.day_number());
        proof {
            broadcast use vstd::seq_lib::group_filter_ensures;

            let kept = before.filter(p);
            assert forall|i: int| 0 <= i < before.len() implies (kept.contains(#[trigger] before[i])
                <==> ({
                let ups = user_updates(before[i]);
                exists|m: int|
                    0 <= m < ups.len() && start.day_number() <= #[trigger] day_of(ups[m])
                        <= end.day_number() && forall|q: int|
                        0 <= q < ups.len() ==> day_of(ups[m]) <= #[trigger] day_of(ups[q])
            })) by {
                if p(before[i]) {
                    before.lemma_filter_contains(p, i);
                }
                if kept.contains(before[i]) {
                    let k = choose|k: int| 0 <= k < kept.len() && kept[k] == before[i];
                    assert(p(kept[k]));
                }
                lemma_first_update_within(start.day_number(), end.day_number(), before[i]);
            }
            assert forall|k: int| 0 <= k < kept.len() implies before.contains(#[trigger] kept[k]) by {
                assert(kept.contains(kept[k]));
                before.lemma_filter_contains_rev(p, kept[k]);
            }
            if kept.len() > 0 {
                assert(kept.contains(kept[0]));
                before.lemma_filter_contains_rev(p, kept[0]);
                let i = choose|i: int| 0 <= i < before.len() && before[i] == kept[0];
                assert(p(kept[0]));
                lemma_first_update_within(start.day_number(), end.day_number(), before[i]);
            } else {
                assert forall|i: int| 0 <= i < before.len() implies !p(#[trigger] before[i]) by {
                    if p(before[i]) {
                        before.lemma_filter_contains(p, i);
                    }
                }
                assert forall|i: int| 0 <= i < before.len() implies !({
                    let ups = user_updates(#[trigger] before[i]);
                    exists|m: int|
                        0 <= m < ups.len() && start.day_number() <= #[trigger] day_of(ups[m])
                            <= end.day_number() && forall|q: int|
                            0 <= q < ups.len() ==> day_of(ups[m]) <= #[trigger] day_of(ups[q])
                }) by {
                    lemma_first_update_within(start.day_number(), end.day_number(), before[i]);
                    assert(!p(before[i]));
                }
            }
        }
        let keep = |u: &UserWithSpamData<'a>| -> (b: bool)
            ensures
                b == first_update_within(start.day_number(), end.day_number())(u.spec_user()@),
            {
                let first = u.earliest_spam_update().date();
                start.is_at_or_before(&first) && first.is_at_or_before(&end)
            };
        match self.filtered_by(keep, Ghost(first_update_within(start.day_number(), end.day_number())))
        {
            Some(s) => {
                *self = s;
                Some(())
            },
            None => None,
        }
    }

    /// The fids of the users with spam score `from` at `begin` whose latest update has spam
    /// score `to`, in order.
    pub fn moved_fids(&self, from: SpamScore, to: SpamScore, begin: Date) -> (r: Vec<Fid>)
        requires
            self.wf(),
        ensures
            r@ == fids_of(self@.filter(moved_between(from, to, begin.day_number()))),
            forall|i: int|
                0 <= i < self@.len() ==> (r@.contains((#[trigger] self@[i]).0) <==> ({
                    let ups = user_updates(self@[i]);
                    &&& spam_score_at(ups, begin.day_number()) == Some(from)
                    &&& ups.len() > 0
                    &&& forall|d: int|
                        (forall|k: int| 0 <= k < ups.len() ==> #[trigger] day_of(ups[k]) <= d)
                            ==> #[trigger] spam_score_at(ups, d) == Some(to)
                })),
    {
        proof {
            self.lemma_wf();
            assert forall|i: int| 0 <= i < self@.len() implies (fids_of(
                self@.filter(moved_between(from, to, begin.day_number())),
            ).contains((#[trigger] self@[i]).0) <==> ({
                let ups = user_updates(self@[i]);
                &&& spam_score_at(ups, begin.day_number()) == Some(from)
                &&& ups.len() > 0
                &&& forall|d: int|
                    (forall|k: int| 0 <= k < ups.len() ==> #[trigger] day_of(ups[k]) <= d)
                        ==> #[trigger] spam_score_at(ups, d) == Some(to)
            })) by {
                lemma_fids_of_filter(self@, moved_between(from, to, begin.day_number()), i);
                lemma_moved_between(from, to, begin.day_number(), self@[i]);
            }
        }
        let keep = |u: &UserWithSpamData<'a>| -> (b: bool)
            ensures
                b == moved_between(from, to, begin.day_number())(u.spec_user()@),
            {
                let at_begin = match u.spam_score_at_date(begin) {
                    Some(s) => s == from,
                    None => false,
                };
                at_begin && u.latest_spam_update().inner().score() == to
            };
        match self.filtered_by(keep, Ghost(moved_between(from, to, begin.day_number()))) {
            Some(s) => s.fids(),
            None => {
                proof {
                    assert(fids_of(self@.filter(moved_between(from, to, begin.day_number())))
                        =~= Seq::empty());
                }
                Vec::new()
            },
        }
    }

    /// The fids of the users with spam score `from` `timespan` days before `today` whose latest
    /// update has spam score `to`, in order; `None` when that day is not a date.
    pub fn moved_fids_over(&self, from: SpamScore, to: SpamScore, today: Date, timespan: u64) -> (r:
        Option<Vec<Fid>>)
        requires
            self.wf(),
        ensures
            r is None <==> !(timespan <= i32::MAX && today.day_number() - timespan >= MIN_DAY),
            r matches Some(v) ==> v@ == fids_of(
                self@.filter(moved_between(from, to, today.day_number() - timespan)),
            ),
    {
        match today.checked_sub_days(timespan) {
            Some(begin) => Some(self.moved_fids(from, to, begin)),
            None => None,
        }
    }

    /// The moves between spam scores from `days` days before `today` to three weeks after
    /// that day, as [`SetWithSpamEntries::spam_changes_with_fid_score_shift`] lists them;
    /// `None` when that day is not a date.
    pub fn latest_moves(&self, today: Date, days: u64) -> (r: Option<Vec<FidScoreShift>>)
        requires
            self.wf(),
        ensures
            r is None <==> !(days <= i32::MAX && today.day_number() - days >= MIN_DAY),
            r matches Some(v) ==> is_shift_list(
                v@,
                shift_counts(
                    self@,
                    today.day_number() - days,
                    end_day(today.day_number() - days, 21),
                ),
            ),
            r matches Some(v) ==> forall|j: int|
                0 <= j < v@.len() ==> (#[trigger] v@[j]).spec_count() == movers(
                    self@,
                    today.day_number() - days,
                    end_day(today.day_number() - days, 21),
                    v@[j].spec_source(),
                    v@[j].spec_target(),
                ) && v@[j].spec_count() > 0,
    {
        match today.checked_sub_days(days) {
            Some(begin) => Some(self.spam_changes_with_fid_score_shift(begin, 21)),
            None => None,
        }
    }

    /// The number of users that move from each spam score at `from` to each spam score `days`
    /// days later (or at the latest date when that is past it): row `i` and column `j` count
    /// the moves from score `i` to score `j`.
    pub fn spam_change_matrix(&self, from: Date, days: u64) -> (r: [[usize; 3]; 3])
        requires
            self.wf(),
        ensures
            forall|i: int, j: int|
                0 <= i < 3 && 0 <= j < 3 ==> r[i][j] == shift_counts(
                    self@,
                    from.day_number(),
                    end_day(from.day_number(), days),
                )[3 * i + j],
            forall|s: SpamScore, t: SpamScore|
                r[s.spec_number()][t.spec_number()] == #[trigger] movers(
                    self@,
                    from.day_number(),
                    end_day(from.day_number(), days),
                    source_of_score(s),
                    target_of_score(t),
                ),
    {
        let end_date = match from.checked_add_days(days) {
            Some(d) => d,
            None => Date::max(),
        };
        let c = self.shift_count_vec(from, end_date);
        let r = [[c[0], c[1], c[2]], [c[3], c[4], c[5]], [c[6], c[7], c[8]]];
        proof {
            let counts = shift_counts(self@, from.day_number(), end_date.day_number());
            assert forall|i: int, j: int| 0 <= i < 3 && 0 <= j < 3 implies r[i][j] == counts[3 * i
                + j] by {
                assert(c@[3 * i + j] == counts[3 * i + j]);
            }
            assert forall|s: SpamScore, t: SpamScore|
                r[s.spec_number()][t.spec_number()] == #[trigger] movers(
                    self@,
                    from.day_number(),
                    end_date.day_number(),
                    source_of_score(s),
                    target_of_score(t),
                ) by {
                crate::fid_score_shift::lemma_shift_index_of_scores(s, t);
                lemma_shift_count_movers(
                    self@,
                    from.day_number(),
                    end_date.day_number(),
                    3 * s.spec_number() + t.spec_number(),
                );
                assert(c@[3 * s.spec_number() + t.spec_number()] == counts[3 * s.spec_number()
                    + t.spec_number()]);
            }
        }
        r
    }

}

/// The longest timespan, in days, over which the moves between spam scores are asked for.
pub const MAX_MOVE_TIMESPAN: u64 = 100;

/// The spam scores of a request for the users that moved from score `from` to score `to` over
/// the last `timespan` days: none where a score number is past 2 or the timespan past
/// [`MAX_MOVE_TIMESPAN`].
pub fn move_request_scores(from: u64, to: u64, timespan: u64) -> (r: Option<(SpamScore, SpamScore)>)
    ensures
        r is Some <==> from <= 2 && to <= 2 && timespan <= MAX_MOVE_TIMESPAN,
        r matches Some((a, b)) ==> a.spec_number() == from && b.spec_number() == to,
{
    if from > 2 || to > 2 || timespan > MAX_MOVE_TIMESPAN {
        return None;
    }
    let a = if from == 0 {
        SpamScore::Zero
    } else if from == 1 {
        SpamScore::One
    } else {
        SpamScore::Two
    };
    let b = if to == 0 {
        SpamScore::Zero
    } else if to == 1 {
        SpamScore::One
    } else {
        SpamScore::Two
    };
    Some((a, b))
}

} // verus!
