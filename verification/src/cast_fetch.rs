//! The choice of the users whose casts to fetch: those of the rarest pairs of spam scores.
use crate::analyze_spam_entry::{pair_users, spam_data_pred, SetWithSpamEntries};
use crate::date::{Date, MIN_DAY};
use crate::fid::Fid;
use crate::spam_score::SpamScore;
use crate::user_collection::UserCollection;
use crate::user_value::AnyNativeUserValue;
use crate::user_with_spam_data::has_spam_data;
use std::collections::HashSet;
use vstd::prelude::*;

verus! {

/// The spam score with number `n`, for `n` from 0 to 2.
pub open spec fn score_of_number(n: int) -> SpamScore {
    if n == 0 {
        SpamScore::Zero
    } else if n == 1 {
        SpamScore::One
    } else {
        SpamScore::Two
    }
}

/// The first score of pair `k`; the pairs go (0, 0), (0, 1), (0, 2), (1, 0), ... (2, 2).
pub open spec fn pair_from(k: int) -> SpamScore {
    score_of_number(k / 3)
}

/// The second score of pair `k`.
pub open spec fn pair_to(k: int) -> SpamScore {
    score_of_number(k % 3)
}

/// The users of pair `k` at day `day`.
pub open spec fn users_of_pair(
    users: Seq<(Fid, Seq<AnyNativeUserValue>)>,
    day: int,
    k: int,
) -> Seq<(Fid, Seq<AnyNativeUserValue>)> {
    pair_users(users, pair_from(k), pair_to(k), day)
}

/// The fid numbers of the users of pair `k` at day `day`, in order.
pub open spec fn pair_fids(users: Seq<(Fid, Seq<AnyNativeUserValue>)>, day: int, k: int) -> Seq<
    u64,
> {
    users_of_pair(users, day, k).map_values(|u: (Fid, Seq<AnyNativeUserValue>)| u.0@)
}

/// The number of users of pair `k` at day `day`.
pub open spec fn pair_count(users: Seq<(Fid, Seq<AnyNativeUserValue>)>, day: int, k: int) -> int {
    users_of_pair(users, day, k).len() as int
}

/// The first of the pairs `0` to `n - 1` with the fewest users.
pub open spec fn lowest_pair_among(users: Seq<(Fid, Seq<AnyNativeUserValue>)>, day: int, n: int) -> int
    decreases n,
{
    if n <= 1 {
        0
    } else {
        let best = lowest_pair_among(users, day, n - 1);
        if pair_count(users, day, n - 1) < pair_count(users, day, best) {
            n - 1
        } else {
            best
        }
    }
}

/// Whether pair `k` is fetched: it is the first pair with the fewest users, or at most one
/// percent of `total` users hold it.
pub open spec fn pair_chosen(
    users: Seq<(Fid, Seq<AnyNativeUserValue>)>,
    day: int,
    total: int,
    k: int,
) -> bool {
    k == lowest_pair_among(users, day, 9) || pair_count(users, day, k) * 100 <= total
}

/// Whether fid number `f` belongs to a fetched pair among the pairs `0` to `k - 1`.
pub open spec fn in_chosen_pair_before(
    users: Seq<(Fid, Seq<AnyNativeUserValue>)>,
    day: int,
    total: int,
    k: int,
    f: u64,
) -> bool {
    exists|q: int|
        0 <= q < k && pair_chosen(users, day, total, q) && #[trigger] pair_fids(users, day, q).contains(
            f,
        )
}

/// Whether fid number `f` belongs to a fetched pair.
pub open spec fn fetch_candidate(
    users: Seq<(Fid, Seq<AnyNativeUserValue>)>,
    day: int,
    total: int,
    f: u64,
) -> bool {
    in_chosen_pair_before(users, day, total, 9, f)
}

/// The spam score with number `n`.
fn score_of_index(n: usize) -> (r: SpamScore)
    requires
        n < 3,
    ensures
        r == score_of_number(n as int),
{
    if n == 0 {
        SpamScore::Zero
    } else if n == 1 {
        SpamScore::One
    } else {
        SpamScore::Two
    }
}

/// Pushing a value that a sequence lacks keeps it free of repeats and adds just that value.
proof fn lemma_push_new(s: Seq<u64>, v: u64)
    requires
        s.no_duplicates(),
        !s.contains(v),
    ensures
        s.push(v).no_duplicates(),
        forall|x: u64| #[trigger] s.push(v).contains(x) <==> (s.contains(x) || x == v),
{
    let t = s.push(v);
    assert forall|x: u64| #[trigger] t.contains(x) <==> (s.contains(x) || x == v) by {
        if t.contains(x) {
            let i = choose|i: int| 0 <= i < t.len() && t[i] == x;
            if i < s.len() {
                assert(s[i] == x);
            }
        }
        if s.contains(x) {
            let i = choose|i: int| 0 <= i < s.len() && s[i] == x;
            assert(t[i] == x);
        }
        if x == v {
            assert(t[s.len() as int] == v);
        }
    }
    assert forall|i: int, j: int| 0 <= i < t.len() && 0 <= j < t.len() && i != j implies t[i]
        != t[j] by {
        if i == s.len() {
            assert(s[j] == t[j]);
        } else if j == s.len() {
            assert(s[i] == t[i]);
        }
    }
}

/// A count is at most the hundredth part of a total, rounded down, exactly when a hundred
/// times it is at most the total.
proof fn lemma_share(c: int, t: int)
    requires
        0 <= c,
        0 <= t,
    ensures
        (c <= t / 100) <==> (c * 100 <= t),
{
}

/// The fid numbers whose casts to fetch, at most `max` of them and each once: those of the
/// first pair of spam scores two weeks before `today` with the fewest users, and of every pair
/// that at most one percent of the users of `users` hold. A pair `(from, to)` is held by the
/// users with spam score `from` at that day that also have spam score `to` then, where a step
/// that would keep no user keeps them all. When fewer than `max` are returned, every fid of
/// those pairs is.
pub fn fetch_list(users: &UserCollection, today: Date, max: usize) -> (r: Vec<u64>)
    requires
        users.wf(),
        exists|i: int| 0 <= i < users@.len() && has_spam_data(#[trigger] users@[i]),
        today.day_number() - 14 >= MIN_DAY,
    ensures
        ({
            let all = users@.filter(spam_data_pred());
            let day = today.day_number() - 14;
            let total = users@.len() as int;
            &&& r@.no_duplicates()
            &&& r@.len() <= max
            &&& forall|i: int| 0 <= i < r@.len() ==> fetch_candidate(all, day, total, #[trigger] r@[i])
            &&& r@.len() < max ==> forall|f: u64| #[trigger]
                fetch_candidate(all, day, total, f) ==> r@.contains(f)
            &&& r@.len() < max ==> forall|k: int, f: u64|
                0 <= k < 9 && pair_count(all, day, k) * 100 <= total && #[trigger] pair_fids(
                    all,
                    day,
                    k,
                ).contains(f) ==> r@.contains(f)
            &&& r@.len() < max ==> forall|k: int, f: u64|
                0 <= k < 9 && first_with_fewest(all, day, k) && #[trigger] pair_fids(all, day, k).contains(f)
                    ==> r@.contains(f)
            &&& forall|i: int|
                0 <= i < r@.len() ==> in_rare_pair(all, day, total, #[trigger] r@[i])
        }),
{
    let set = match SetWithSpamEntries::new(users) {
        Some(s) => s,
        None => {
            return Vec::new();
        },
    };
    let date = match today.checked_sub_days(14) {
        Some(d) => d,
        None => {
            return Vec::new();
        },
    };
    let ghost all = users@.filter(spam_data_pred());
    let ghost day = today.day_number() - 14;
    let total = users.user_count();
    let ghost t = users@.len() as int;
    let mut pairs: Vec<Vec<Fid>> = Vec::new();
    let mut k: usize = 0;
    while k < 9
        invariant
            set.wf(),
            set@ == all,
            day == date.day_number(),
            k <= 9,
            pairs@.len() == k,
            forall|q: int|
                0 <= q < k ==> (#[trigger] pairs@[q])@ == crate::analyze_spam_entry::fids_of(
                    users_of_pair(all, day, q),
                ),
        decreases 9 - k,
    {
        let fids = set.fids_with_scores_at(score_of_index(k / 3), score_of_index(k % 3), date);
        pairs.push(fids);
        k = k + 1;
    }
    let mut lowest: usize = 0;
    k = 1;
    while k < 9
        invariant
            1 <= k <= 9,
            pairs@.len() == 9,
            forall|q: int|
                0 <= q < 9 ==> (#[trigger] pairs@[q])@ == crate::analyze_spam_entry::fids_of(
                    users_of_pair(all, day, q),
                ),
            lowest < k,
            lowest == lowest_pair_among(all, day, k as int),
        decreases 9 - k,
    {
        assert(pairs@[k as int]@.len() == pair_count(all, day, k as int));
        assert(pairs@[lowest as int]@.len() == pair_count(all, day, lowest as int));
        if pairs[k].len() < pairs[lowest].len() {
            lowest = k;
        }
        k = k + 1;
    }
    let mut seen: HashSet<u64> = HashSet::new();
    let mut result: Vec<u64> = Vec::new();
    broadcast use vstd::std_specs::hash::group_hash_axioms;
    k = 0;
    while k < 9 && result.len() < max
        invariant
            k <= 9,
            pairs@.len() == 9,
            forall|q: int|
                0 <= q < 9 ==> (#[trigger] pairs@[q])@ == crate::analyze_spam_entry::fids_of(
                    users_of_pair(all, day, q),
                ),
            lowest == lowest_pair_among(all, day, 9),
            t == total,
            result@.no_duplicates(),
            result@.len() <= max,
            forall|x: u64| seen@.contains(x) <==> result@.contains(x),
            forall|i: int| 0 <= i < result@.len() ==> fetch_candidate(all, day, t, #[trigger] result@[i]),
            result@.len() < max ==> forall|f: u64|
                in_chosen_pair_before(all, day, t, k as int, f) ==> #[trigger] result@.contains(f),
        decreases 9 - k,
    {
        let ghost kk = k as int;
        proof {
            lemma_share(pair_count(all, day, kk), t);
            assert(pairs@[kk]@.len() == pair_count(all, day, kk));
        }
        let chosen = k == lowest || pairs[k].len() <= total / 100;
        assert(chosen == pair_chosen(all, day, t, kk));
        if chosen {
            let m = pairs[k].len();
            let mut j: usize = 0;
            while j < m && result.len() < max
                invariant
                    kk == k,
                    0 <= kk < 9,
                    pair_chosen(all, day, t, kk),
                    pairs@.len() == 9,
                    m == pairs@[kk]@.len(),
                    pairs@[kk]@ == crate::analyze_spam_entry::fids_of(users_of_pair(all, day, kk)),
                    j <= m,
                    result@.no_duplicates(),
                    result@.len() <= max,
                    forall|x: u64| seen@.contains(x) <==> result@.contains(x),
                    forall|i: int|
                        0 <= i < result@.len() ==> fetch_candidate(all, day, t, #[trigger] result@[i]),
                    result@.len() < max ==> forall|f: u64|
                        (in_chosen_pair_before(all, day, t, kk, f) || pair_fids(all, day, kk).take(
                            j as int,
                        ).contains(f)) ==> #[trigger] result@.contains(f),
                decreases m - j,
            {
                let v = pairs[k][j].value();
                let ghost pf = pair_fids(all, day, kk);
                assert(pf[j as int] == v);
                proof {
                    assert(pf.contains(v));
                    assert(fetch_candidate(all, day, t, v));
                    assert(pf.take(j + 1) =~= pf.take(j as int).push(v));
                }
                if !seen.contains(&v) {
                    let ghost before = result@;
                    proof {
                        lemma_push_new(before, v);
                    }
                    seen.insert(v);
                    result.push(v);
                    proof {
                        assert forall|i: int| 0 <= i < result@.len() implies fetch_candidate(
                            all,
                            day,
                            t,
                            #[trigger] result@[i],
                        ) by {
                            if i < before.len() {
                                assert(result@[i] == before[i]);
                            }
                        }
                    }
                }
                proof {
                    if result@.len() < max {
                        assert forall|f: u64|
                            (in_chosen_pair_before(all, day, t, kk, f) || pf.take(j + 1).contains(
                                f,
                            )) implies #[trigger] result@.contains(f) by {
                            if pf.take(j + 1).contains(f) && !pf.take(j as int).contains(f) {
                                let i = choose|i: int| 0 <= i < j + 1 && #[trigger] pf.take(j + 1)[i] == f;
                                if i < j {
                                    assert(pf.take(j as int)[i] == f);
                                }
                                assert(f == v);
                            }
                        }
                    }
                }
                j = j + 1;
            }
            proof {
                if result@.len() < max {
                    assert(j == m);
                    assert(pair_fids(all, day, kk).len() == m);
                    assert(pair_fids(all, day, kk).take(m as int) =~= pair_fids(all, day, kk));
                    assert forall|f: u64| in_chosen_pair_before(all, day, t, kk + 1, f) implies #[trigger] result@.contains(f) by {
                        let q = choose|q: int|
                            0 <= q < kk + 1 && pair_chosen(all, day, t, q) && #[trigger] pair_fids(
                                all,
                                day,
                                q,
                            ).contains(f);
                        if q < kk {
                            assert(in_chosen_pair_before(all, day, t, kk, f));
                        }
                    }
                }
            }
        } else {
            proof {
                if result@.len() < max {
                    assert forall|f: u64| in_chosen_pair_before(all, day, t, kk + 1, f) implies #[trigger] result@.contains(f) by {
                        let q = choose|q: int|
                            0 <= q < kk + 1 && pair_chosen(all, day, t, q) && #[trigger] pair_fids(
                                all,
                                day,
                                q,
                            ).contains(f);
                        assert(q != kk);
                        assert(in_chosen_pair_before(all, day, t, kk, f));
                    }
                }
            }
        }
        k = k + 1;
    }
    proof {
        assert(day == today.day_number() - 14);
        assert(t == users@.len() as int);
        lemma_pair_chosen_all(all, day, t);
        assert forall|i: int| 0 <= i < result@.len() implies in_rare_pair(
            all,
            day,
            t,
            #[trigger] result@[i],
        ) by {
            assert(fetch_candidate(all, day, t, result@[i]));
            let q = choose|q: int|
                0 <= q < 9 && pair_chosen(all, day, t, q) && #[trigger] pair_fids(all, day, q).contains(
                    result@[i],
                );
            assert(pair_fids(all, day, q).contains(result@[i]));
            assert(pair_count(all, day, q) * 100 <= t || first_with_fewest(all, day, q));
        }
        if result@.len() < max {
            assert forall|k: int, f: u64|
                0 <= k < 9 && pair_count(all, day, k) * 100 <= t && #[trigger] pair_fids(
                    all,
                    day,
                    k,
                ).contains(f) implies result@.contains(f) by {
                assert(pair_chosen(all, day, t, k));
                assert(fetch_candidate(all, day, t, f));
            }
            assert forall|k: int, f: u64|
                0 <= k < 9 && first_with_fewest(all, day, k) && #[trigger] pair_fids(all, day, k).contains(f)
                    implies result@.contains(f) by {
                assert(pair_chosen(all, day, t, k));
                assert(fetch_candidate(all, day, t, f));
            }
        }
    }
    result
}

/// The pair `lowest_pair_among(users, day, n)` is, among the pairs `0` to `n - 1`, one with
/// the fewest users, and every pair before it has more users.
pub proof fn lemma_lowest_pair_among(users: Seq<(Fid, Seq<AnyNativeUserValue>)>, day: int, n: int)
    requires
        1 <= n,
    ensures
        0 <= lowest_pair_among(users, day, n) < n,
        forall|q: int|
            0 <= q < n ==> pair_count(users, day, lowest_pair_among(users, day, n)) <= #[trigger] pair_count(
                users,
                day,
                q,
            ),
        forall|q: int|
            0 <= q < lowest_pair_among(users, day, n) ==> pair_count(
                users,
                day,
                lowest_pair_among(users, day, n),
            ) < #[trigger] pair_count(users, day, q),
    decreases n,
{
    if n > 1 {
        lemma_lowest_pair_among(users, day, n - 1);
    }
}

/// Whether pair `k` is the first of the nine pairs with the fewest users: no pair has fewer
/// users, and every pair before it has more.
pub open spec fn first_with_fewest(users: Seq<(Fid, Seq<AnyNativeUserValue>)>, day: int, k: int) -> bool {
    &&& forall|q: int| 0 <= q < 9 ==> pair_count(users, day, k) <= #[trigger] pair_count(users, day, q)
    &&& forall|q: int| 0 <= q < k ==> pair_count(users, day, k) < #[trigger] pair_count(users, day, q)
}

/// Whether fid number `f` belongs to a pair that at most one percent of `total` users hold,
/// or to the first pair with the fewest users.
pub open spec fn in_rare_pair(
    users: Seq<(Fid, Seq<AnyNativeUserValue>)>,
    day: int,
    total: int,
    f: u64,
) -> bool {
    exists|k: int|
        0 <= k < 9 && #[trigger] pair_fids(users, day, k).contains(f) && (pair_count(users, day, k)
            * 100 <= total || first_with_fewest(users, day, k))
}

/// A pair is fetched exactly when at most one percent of `total` users hold it, or it is the
/// first pair with the fewest users.
pub proof fn lemma_pair_chosen_all(users: Seq<(Fid, Seq<AnyNativeUserValue>)>, day: int, total: int)
    ensures
        forall|k: int|
            0 <= k < 9 ==> (#[trigger] pair_chosen(users, day, total, k) <==> (pair_count(users, day, k)
                * 100 <= total || first_with_fewest(users, day, k))),
{
    lemma_lowest_pair_among(users, day, 9);
    let l = lowest_pair_among(users, day, 9);
    assert forall|k: int|
        0 <= k < 9 implies (#[trigger] pair_chosen(users, day, total, k) <==> (pair_count(users, day, k)
            * 100 <= total || first_with_fewest(users, day, k))) by {
        if first_with_fewest(users, day, k) {
            assert(pair_count(users, day, k) <= pair_count(users, day, l));
            assert(pair_count(users, day, l) <= pair_count(users, day, k));
            if k < l {
                assert(pair_count(users, day, l) < pair_count(users, day, k));
            } else if l < k {
                assert(pair_count(users, day, k) < pair_count(users, day, l));
            }
        }
    }
}

} // verus!
