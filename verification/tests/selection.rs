use farmap::date::cohort_bounds;
use farmap::{
    fetch_list, first_spam_update_at_or_after, first_spam_update_at_or_before,
    latest_spam_score_is, spam_score_at_is, CastMeta, CastType, CollectionError, Date, Dated,
    DatedSpamUpdate, Fid, Fidded, SetWithSpamEntries, SpamDataParseError, SpamScore,
    UnprocessedUserLine, UserCollection, UserStoreWithNativeUserValue, UserWithSpamData,
};
use std::collections::HashSet;

fn date(y: i32, m: u32, d: u32) -> Date {
    Date::from_ymd_opt(y, m, d).unwrap()
}

fn spam_update(day: Date, score: usize) -> DatedSpamUpdate {
    DatedSpamUpdate::from(day, SpamScore::try_from(score).unwrap())
}

/// A user with fid `fid` and one spam update per `(date, score)`, in order.
fn user_with(fid: u64, updates: &[(Date, usize)]) -> UserStoreWithNativeUserValue {
    let mut user = UserStoreWithNativeUserValue::new(Fid::new(fid));
    for (day, score) in updates {
        user.add_user_value(spam_update(*day, *score));
    }
    user
}

fn collection_of(users: Vec<UserStoreWithNativeUserValue>) -> UserCollection {
    let mut collection = UserCollection::default();
    for user in users {
        collection.add_user(user).unwrap();
    }
    collection
}

/// Fids 1 and 2 score 0 on 2024-01-01, fid 3 scores 1 then; fid 3 moves to 2 on 2024-02-01.
fn small_collection() -> UserCollection {
    collection_of(vec![
        user_with(1, &[(date(2024, 1, 1), 0)]),
        user_with(2, &[(date(2024, 1, 1), 0), (date(2024, 3, 1), 1)]),
        user_with(3, &[(date(2024, 1, 1), 1), (date(2024, 2, 1), 2)]),
    ])
}

fn values(fids: Vec<Fid>) -> Vec<u64> {
    fids.into_iter().map(|f| f.value()).collect()
}

#[test]
fn pair_fids_keep_users_with_both_scores() {
    let users = small_collection();
    let set = SetWithSpamEntries::new(&users).unwrap();
    let day = date(2024, 1, 15);
    assert_eq!(values(set.fids_with_scores_at(SpamScore::Zero, SpamScore::Zero, day)), vec![1, 2]);
    assert_eq!(values(set.fids_with_scores_at(SpamScore::One, SpamScore::One, day)), vec![3]);
}

#[test]
fn pair_fids_keep_users_where_a_step_finds_none() {
    let users = small_collection();
    let set = SetWithSpamEntries::new(&users).unwrap();
    let day = date(2024, 1, 15);
    // The second step finds no user with score 2 among the zeros: the zeros stay.
    assert_eq!(values(set.fids_with_scores_at(SpamScore::Zero, SpamScore::Two, day)), vec![1, 2]);
    // No user has score 2 at that day: the first step keeps all, the second keeps the ones.
    assert_eq!(values(set.fids_with_scores_at(SpamScore::Two, SpamScore::One, day)), vec![3]);
    // Neither step finds a user: all stay.
    let before = date(2023, 1, 1);
    assert_eq!(
        values(set.fids_with_scores_at(SpamScore::Two, SpamScore::Two, before)),
        vec![1, 2, 3]
    );
}

#[test]
fn fetch_list_takes_the_rarest_pair_and_the_rare_ones() {
    let mut users_list = Vec::new();
    for fid in 1..=150u64 {
        users_list.push(user_with(fid, &[(date(2024, 1, 1), 2)]));
    }
    users_list.push(user_with(200, &[(date(2024, 1, 1), 1)]));
    let users = collection_of(users_list);
    let today = date(2024, 2, 1);
    let list = fetch_list(&users, today, 1_000);
    let got: HashSet<u64> = list.iter().copied().collect();
    assert_eq!(got.len(), list.len());
    // The pairs (0, 1), (1, 0), (1, 1) and (1, 2) hold only fid 200, under one percent of
    // the 151 users, and (0, 1) is the first pair with the fewest users; every other pair
    // holds 150 or 151 users.
    assert!(got.contains(&200));
    let pair_one = SetWithSpamEntries::new(&users)
        .unwrap()
        .fids_with_scores_at(SpamScore::One, SpamScore::One, date(2024, 1, 18));
    assert_eq!(values(pair_one), vec![200]);
    assert_eq!(got, HashSet::from([200]));
}

#[test]
fn fetch_list_stops_at_the_maximum() {
    let users = collection_of(vec![
        user_with(1, &[(date(2024, 1, 1), 0)]),
        user_with(2, &[(date(2024, 1, 1), 0)]),
        user_with(3, &[(date(2024, 1, 1), 0)]),
    ]);
    let today = date(2024, 2, 1);
    let all = fetch_list(&users, today, 10);
    assert_eq!(all.iter().copied().collect::<HashSet<u64>>(), HashSet::from([1, 2, 3]));
    assert_eq!(all.len(), 3);
    let two = fetch_list(&users, today, 2);
    assert_eq!(two.len(), 2);
    assert!(two.iter().all(|f| all.contains(f)));
    assert_ne!(two[0], two[1]);
}

#[test]
fn cohort_bounds_span_a_month() {
    assert_eq!(cohort_bounds(2024, 1), Some((date(2024, 1, 1), date(2024, 2, 1))));
    assert_eq!(cohort_bounds(2023, 12), Some((date(2023, 12, 1), date(2024, 1, 1))));
    assert_eq!(cohort_bounds(2024, 13), None);
    assert_eq!(cohort_bounds(2024, 0), None);
    assert_eq!(cohort_bounds(262142, 12), None);
    assert_eq!(cohort_bounds(262142, 11), Some((date(262142, 11, 1), date(262142, 12, 1))));
}

#[test]
fn cohort_filter_keeps_first_updates_in_the_month() {
    let users = collection_of(vec![
        user_with(1, &[(date(2024, 1, 10), 0)]),
        user_with(2, &[(date(2024, 2, 1), 1)]),
        user_with(3, &[(date(2024, 2, 2), 2), (date(2024, 1, 5), 2)]),
        user_with(4, &[(date(2023, 12, 31), 2)]),
    ]);
    let mut set = SetWithSpamEntries::new(&users).unwrap();
    let (start, end) = cohort_bounds(2024, 1).unwrap();
    assert_eq!(set.filter_by_first_update(start, end), Some(()));
    assert_eq!(values(set.fids()), vec![1, 2, 3]);
}

#[test]
fn cohort_filter_without_users_leaves_the_set() {
    let users = small_collection();
    let mut set = SetWithSpamEntries::new(&users).unwrap();
    let (start, end) = cohort_bounds(2020, 5).unwrap();
    assert_eq!(set.filter_by_first_update(start, end), None);
    assert_eq!(values(set.fids()), vec![1, 2, 3]);
}

#[test]
fn moved_fids_hold_the_users_that_moved() {
    let users = small_collection();
    let set = SetWithSpamEntries::new(&users).unwrap();
    let begin = date(2024, 1, 15);
    assert_eq!(values(set.moved_fids(SpamScore::One, SpamScore::Two, begin)), vec![3]);
    assert_eq!(values(set.moved_fids(SpamScore::Zero, SpamScore::One, begin)), vec![2]);
    assert_eq!(values(set.moved_fids(SpamScore::Zero, SpamScore::Zero, begin)), vec![1]);
    assert!(set.moved_fids(SpamScore::Two, SpamScore::Two, begin).is_empty());
}

#[test]
fn moved_fids_count_back_from_today() {
    let users = small_collection();
    let set = SetWithSpamEntries::new(&users).unwrap();
    let today = date(2024, 1, 25);
    let moved = set.moved_fids_over(SpamScore::One, SpamScore::Two, today, 10).unwrap();
    assert_eq!(values(moved), vec![3]);
    assert!(set.moved_fids_over(SpamScore::One, SpamScore::Two, today, 3_000_000_000).is_none());
    assert!(set.moved_fids_over(SpamScore::One, SpamScore::Two, today, 800_000_000).is_none());
}

#[test]
fn latest_moves_start_days_before_today() {
    let users = small_collection();
    let set = SetWithSpamEntries::new(&users).unwrap();
    let today = date(2024, 1, 25);
    let moves = set.latest_moves(today, 10).unwrap();
    let direct = set.spam_changes_with_fid_score_shift(date(2024, 1, 15), 21);
    assert_eq!(moves, direct);
    assert!(set.latest_moves(today, 3_000_000_000).is_none());
}

#[test]
fn change_matrix_counts_the_moves() {
    let users = small_collection();
    let set = SetWithSpamEntries::new(&users).unwrap();
    let matrix = set.spam_change_matrix(date(2024, 1, 15), 60);
    assert_eq!(matrix, [[1, 1, 0], [0, 0, 1], [0, 0, 0]]);
    let none_yet = set.spam_change_matrix(date(2023, 1, 1), 10);
    assert_eq!(none_yet, [[0, 0, 0], [0, 0, 0], [0, 0, 0]]);
}

#[test]
fn user_predicates_read_the_spam_updates() {
    let user = user_with(9, &[(date(2024, 2, 2), 2), (date(2024, 1, 5), 1)]);
    let bare = UserStoreWithNativeUserValue::new(Fid::new(10));
    assert!(first_spam_update_at_or_after(&user, date(2024, 1, 5)));
    assert!(!first_spam_update_at_or_after(&user, date(2024, 1, 6)));
    assert!(first_spam_update_at_or_before(&user, date(2024, 1, 5)));
    assert!(!first_spam_update_at_or_before(&user, date(2024, 1, 4)));
    assert!(spam_score_at_is(&user, date(2024, 1, 20), SpamScore::One));
    assert!(spam_score_at_is(&user, date(2024, 2, 20), SpamScore::Two));
    assert!(!spam_score_at_is(&user, date(2024, 1, 1), SpamScore::One));
    assert!(latest_spam_score_is(&user, SpamScore::Two));
    assert!(!latest_spam_score_is(&user, SpamScore::One));
    assert!(!first_spam_update_at_or_after(&bare, date(2000, 1, 1)));
    assert!(!first_spam_update_at_or_before(&bare, date(2000, 1, 1)));
    assert!(!spam_score_at_is(&bare, date(2000, 1, 1), SpamScore::Zero));
    assert!(!latest_spam_score_is(&bare, SpamScore::Zero));
}

#[test]
fn values_go_only_to_existing_users() {
    let mut users = small_collection();
    let day = date(2024, 4, 1);
    let casts = vec![
        Fidded::new(Dated::new(CastType::CAST, day), Fid::new(2)),
        Fidded::new(Dated::new(CastType::CAST, day), Fid::new(7)),
        Fidded::new(Dated::new(CastType::CAST, date(2024, 4, 2)), Fid::new(2)),
    ];
    users.add_values_to_existing(casts);
    assert_eq!(users.user_count(), 3);
    assert!(users.user(Fid::new(7)).is_none());
    let two = users.user(Fid::new(2)).unwrap();
    assert_eq!(two.user_values_of_kind::<Dated<CastType>>().len(), 2);
    let one = users.user(Fid::new(1)).unwrap();
    assert_eq!(one.user_values_of_kind::<Dated<CastType>>().len(), 0);
}

#[test]
fn tagged_values_report_each_collision() {
    let mut users = UserCollection::default();
    let day = date(2024, 4, 1);
    let errors: Vec<CollectionError> = users.add_user_value_iter(vec![
        Fidded::new(spam_update(day, 1), Fid::new(4)),
        Fidded::new(spam_update(day, 2), Fid::new(4)),
        Fidded::new(spam_update(day, 1), Fid::new(5)),
        Fidded::new(spam_update(date(2024, 4, 2), 0), Fid::new(4)),
        Fidded::new(spam_update(day, 0), Fid::new(4)),
    ]);
    assert_eq!(
        errors,
        vec![CollectionError::UserValueCollisionError, CollectionError::UserValueCollisionError]
    );
    assert_eq!(users.user_count(), 2);
    let four = users.user(Fid::new(4)).unwrap();
    assert_eq!(four.user_values_of_kind::<DatedSpamUpdate>().len(), 4);
}

#[test]
fn casts_never_collide() {
    let mut users = UserCollection::default();
    let day = date(2024, 4, 1);
    let errors = users.add_user_value_iter(vec![
        Fidded::new(Dated::new(CastType::CAST, day), Fid::new(4)),
        Fidded::new(Dated::new(CastType::CAST, day), Fid::new(4)),
    ]);
    assert!(errors.is_empty());
}

fn line(fid: u64, label_value: usize, timestamp: usize) -> UnprocessedUserLine {
    UnprocessedUserLine::new(
        1,
        fid,
        String::from("fid"),
        String::from("spam"),
        label_value,
        timestamp,
    )
}

#[test]
fn collections_from_lines_keep_the_errors() {
    let lines = vec![line(1, 0, 0), line(2, 7, 0), line(1, 2, 86_400), line(3, 1, usize::MAX)];
    let (users, errors) = UserCollection::from_lines(lines);
    assert_eq!(users.user_count(), 1);
    let one = UserWithSpamData::try_from_user(users.user(Fid::new(1)).unwrap()).unwrap();
    assert_eq!(one.dated_spam_updates().len(), 2);
    assert_eq!(one.latest_spam_update().inner().score(), SpamScore::Two);
    assert_eq!(errors.len(), 2);
    assert!(matches!(errors[0], SpamDataParseError::SpamScoreError(_)));
    assert_eq!(errors[1], SpamDataParseError::DateError { timestamp: usize::MAX });
}

#[test]
fn lines_with_huge_timestamps_can_be_made() {
    let huge = line(5, 1, usize::MAX);
    assert_eq!(huge.timestamp(), usize::MAX);
    assert_eq!(
        Fidded::<DatedSpamUpdate>::try_from(huge),
        Err(SpamDataParseError::DateError { timestamp: usize::MAX })
    );
}

#[test]
fn cast_meta_holds_its_fields() {
    let cast = CastMeta::new(date(2024, 5, 6), CastType::CAST, 42);
    assert_eq!(cast.fid(), 42);
    assert_eq!(cast.cast_date(), date(2024, 5, 6));
}

#[test]
fn filter_keeps_what_filtered_returns() {
    let users = small_collection();
    let mut set = SetWithSpamEntries::new(&users).unwrap();
    let keep = |u: &UserWithSpamData| u.fid().value() != 2;
    let copy = set.filtered(keep).unwrap();
    assert_eq!(set.filter(keep), Some(()));
    assert_eq!(values(set.fids()), values(copy.fids()));
    assert_eq!(values(set.fids()), vec![1, 3]);
}

#[test]
fn adding_a_value_twice_stores_it_once() {
    let mut user = farmap::User::new(3);
    let value = spam_update(date(2024, 1, 1), 1);
    assert!(user.add_user_value(value.clone()).is_ok());
    let once: Vec<_> =
        user.all_user_values().as_ref().unwrap().iter().map(|entry| entry.0).collect();
    assert!(user.add_user_value(value).is_ok());
    let twice: Vec<_> =
        user.all_user_values().as_ref().unwrap().iter().map(|entry| entry.0).collect();
    assert_eq!(once, twice);
    assert_eq!(twice.len(), 1);
}

#[test]
fn collection_data_finds_users_by_fid() {
    let users = small_collection();
    let data = users.data();
    assert_eq!(data.len(), 3);
    assert_eq!(data[&2].fid(), Fid::new(2));
    assert!(!data.contains_key(&4));
}

#[test]
fn subset_map_finds_users_by_fid() {
    let users = small_collection();
    let subset = farmap::UsersSubset::from(&users);
    let map = subset.into_map();
    assert_eq!(map.len(), 3);
    assert_eq!(map[&3].fid(), Fid::new(3));
    assert!(!map.contains_key(&9));
}

#[test]
fn scored_user_counts_grow_and_match_the_count_totals() {
    let users = small_collection();
    let set = SetWithSpamEntries::new(&users).unwrap();
    let mut previous = 0;
    for day in [date(2023, 12, 31), date(2024, 1, 1), date(2024, 2, 1), date(2024, 6, 1)] {
        let scored = set.user_count_with_spam_score_count_at_date(day);
        assert!(previous <= scored);
        let total = set.spam_score_count_at_date(day).map_or(0, |c| c.inner().total());
        assert_eq!(scored, total);
        previous = scored;
    }
    assert_eq!(previous, 3);
}

#[test]
fn move_requests_are_bounded() {
    assert_eq!(farmap::move_request_scores(0, 2, 100), Some((SpamScore::Zero, SpamScore::Two)));
    assert_eq!(farmap::move_request_scores(3, 0, 30), None);
    assert_eq!(farmap::move_request_scores(1, 1, 101), None);
}

#[test]
fn missing_names_are_new_and_distinct() {
    let api = vec![String::from("a"), String::from("b"), String::from("a"), String::from("c")];
    let local = vec![String::from("b")];
    assert_eq!(
        farmap::fetch::github_parser::missing_names(&api, &local),
        vec![String::from("a"), String::from("c")]
    );
}
