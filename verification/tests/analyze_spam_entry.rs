use farmap::fid_score_shift::{ShiftSource, ShiftTarget};
use farmap::spam_score_at_date_of;
use farmap::{
    Date, DatedSpamUpdate, Fid, FidScoreShift, Fidded, SetWithSpamEntries, SpamScore,
    UserCollection, UserStoreWithNativeUserValue, UserWithSpamData,
};
use std::collections::HashSet;

fn date(y: i32, m: u32, d: u32) -> Date {
    Date::from_ymd_opt(y, m, d).unwrap()
}

fn next_day(day: Date, days: i32) -> Date {
    Date::from_days_from_ce(day.days_from_ce() + days).unwrap()
}

fn spam_update(day: Date, score: usize) -> DatedSpamUpdate {
    DatedSpamUpdate::from(day, SpamScore::try_from(score).unwrap())
}

/// One user per value, with fids 1, 2, ...
fn new_collection_from_user_value_iter(values: Vec<DatedSpamUpdate>) -> UserCollection {
    let mut collection = UserCollection::default();
    let fidded: Vec<Fidded<DatedSpamUpdate>> = values
        .into_iter()
        .enumerate()
        .map(|(n, x)| Fidded::new(x, Fid::new(n as u64 + 1)))
        .collect();
    collection.add_user_value_iter(fidded);
    collection
}

/// `n` updates with score one, all on 2020-01-01.
fn create_users_with_spam_label_one(n: usize) -> UserCollection {
    let start_date = date(2020, 1, 1);
    let values = (0..n).map(|_| spam_update(start_date, 1)).collect();
    new_collection_from_user_value_iter(values)
}

/// `n` updates cycling through the scores 0, 1, 2, all on 2020-01-01.
fn create_users_with_cycling_spam_labels(n: usize) -> UserCollection {
    let start_date = date(2020, 1, 1);
    let values = (0..n).map(|i| spam_update(start_date, i % 3)).collect();
    new_collection_from_user_value_iter(values)
}

fn create_user_with_m_spam_scores(fid: u64, m: u64, first: Date) -> UserStoreWithNativeUserValue {
    let mut user = UserStoreWithNativeUserValue::new(Fid::new(fid));
    let mut day = first;
    for i in 0..m {
        user.try_add_user_value(spam_update(day, (i % 3) as usize))
            .expect("should not cause collision");
        day = next_day(day, 1);
    }
    user
}

fn basic_single_user_test_collection_with_n_spam_updates(n: u64) -> UserCollection {
    let mut collection = UserCollection::default();
    collection
        .add_user(create_user_with_m_spam_scores(1, n, date(2020, 1, 1)))
        .unwrap();
    collection
}

fn basic_m_user_test_collection_with_n_spam_updates(m: u64, n: u64) -> UserCollection {
    let mut collection = UserCollection::default();
    let mut day = date(2020, 1, 1);
    for i in 0..m {
        let user = create_user_with_m_spam_scores(i, n, day);
        collection.add_user(user).expect("add cannot collide");
        day = next_day(day, 1);
    }
    collection
}

fn dummy_data() -> UserCollection {
    let mut one = UserStoreWithNativeUserValue::new(Fid::new(1));
    one.add_user_value(spam_update(date(2024, 1, 1), 1));
    one.add_user_value(spam_update(date(2025, 1, 23), 0));
    let mut two = UserStoreWithNativeUserValue::new(Fid::new(2));
    two.add_user_value(spam_update(date(2025, 1, 23), 2));
    let mut collection = UserCollection::default();
    collection.add_user(one).unwrap();
    collection.add_user(two).unwrap();
    collection
}

fn check_earliest_date(set: &SetWithSpamEntries, expected: Date) {
    assert_eq!(set.earliest_spam_score_date(), expected);
}

fn check_latest_date(set: &SetWithSpamEntries, expected: Date) {
    assert_eq!(set.latest_spam_score_date(), expected);
}

fn check_spam_score_count_at_date(set: &SetWithSpamEntries, expected: [u64; 3], day: Date) {
    let count = set.spam_score_count_at_date(day).unwrap();
    assert_eq!(count.spam(), expected[0]);
    assert_eq!(count.maybe_spam(), expected[1]);
    assert_eq!(count.non_spam(), expected[2]);
}

/// Each expected shift is `[from_score, to_score, count]`.
fn check_fid_score_shifts(set: &SetWithSpamEntries, expected: Vec<[u8; 3]>, initial: Date, days: u8) {
    let mut expected_shifts: HashSet<FidScoreShift> = HashSet::new();
    for [source, target, count] in expected {
        let source = ShiftSource::try_from(source).unwrap();
        let target = ShiftTarget::try_from(target).unwrap();
        expected_shifts.insert(FidScoreShift::new(source, target, count as usize));
    }
    let actual: HashSet<FidScoreShift> =
        HashSet::from_iter(set.spam_changes_with_fid_score_shift(initial, days as u64));
    assert_eq!(expected_shifts, actual);
}

#[test]
fn empty_test_set() {
    let collection = UserCollection::default();
    assert!(SetWithSpamEntries::new(&collection).is_none());
}

#[test]
fn ones() {
    let collection = create_users_with_spam_label_one(10);
    assert!(SetWithSpamEntries::new(&collection).is_some());
}

#[test]
fn valid_set() {
    let collection = basic_m_user_test_collection_with_n_spam_updates(1, 1);
    assert!(SetWithSpamEntries::new(&collection).is_some());
}

fn earliest_spam_date_before_date_filter(user: &UserWithSpamData, day: Date) -> bool {
    user.earliest_spam_update().date().is_at_or_before(&day)
}

#[test]
fn dummy_data_with_emptying_date_filter() {
    let dummy = dummy_data();
    let mut set = SetWithSpamEntries::new(&dummy).unwrap();
    let day = Date::default();
    assert!(set
        .filter(|user: &UserWithSpamData| earliest_spam_date_before_date_filter(user, day))
        .is_none());
}

#[test]
fn dummy_data_with_nonemptying_date_filter() {
    let dummy = dummy_data();
    let mut set = SetWithSpamEntries::new(&dummy).unwrap();
    let day = date(2025, 1, 1);
    assert!(set
        .filter(|user: &UserWithSpamData| earliest_spam_date_before_date_filter(user, day))
        .is_some());
    assert_eq!(set.user_count(), 1);
}

#[test]
fn always_off_filtered_test() {
    let collection = basic_single_user_test_collection_with_n_spam_updates(1);
    let set = SetWithSpamEntries::new(&collection).unwrap();
    assert!(set.filtered(|_: &UserWithSpamData| false).is_none());
}

#[test]
fn always_on_filtered_test() {
    let collection = basic_single_user_test_collection_with_n_spam_updates(1);
    let set = SetWithSpamEntries::new(&collection).unwrap();
    assert!(set.filtered(|_: &UserWithSpamData| true).is_some());
}

#[test]
fn one_user_per_count() {
    let collection = create_users_with_cycling_spam_labels(3);
    let set = SetWithSpamEntries::new(&collection).unwrap();
    let counts = set.current_spam_score_count();
    assert_eq!(counts.non_spam(), 1);
    assert_eq!(counts.maybe_spam(), 1);
    assert_eq!(counts.spam(), 1);
}

fn update_count_of_ones(n: u64) {
    let collection = create_users_with_spam_label_one(n as usize);
    let set = SetWithSpamEntries::new(&collection).unwrap();
    assert_eq!(set.user_count(), n as usize);
}

fn update_count_of_cycling(n: u64) {
    let collection = create_users_with_cycling_spam_labels(n as usize);
    let set = SetWithSpamEntries::new(&collection).unwrap();
    assert_eq!(set.user_count(), n as usize);
}

#[test]
fn test_ones_with_different_lens() {
    update_count_of_ones(1);
    update_count_of_ones(10);
    update_count_of_ones(100);
    update_count_of_ones(1000);
}

#[test]
fn test_cycling_with_different_lens() {
    update_count_of_cycling(19);
    update_count_of_cycling(57);
    update_count_of_cycling(10000);
}

#[test]
fn test_earliest_date_on_dummy_data() {
    let users = dummy_data();
    let set = SetWithSpamEntries::new(&users).unwrap();
    assert_eq!(set.earliest_spam_score_date(), date(2024, 1, 1));
}

#[test]
fn test_earliest_and_latest_on_single_user_set() {
    let collection = basic_single_user_test_collection_with_n_spam_updates(3);
    let set = SetWithSpamEntries::new(&collection).unwrap();
    check_earliest_date(&set, date(2020, 1, 1));
    check_latest_date(&set, date(2020, 1, 3));
}

#[test]
fn test_count_on_single_user_set() {
    let collection = basic_single_user_test_collection_with_n_spam_updates(3);
    let set = SetWithSpamEntries::new(&collection).unwrap();
    check_spam_score_count_at_date(&set, [1, 0, 0], date(2020, 1, 1));
}

#[test]
fn test_earliest_and_latest_spam_score_date() {
    let mut user = UserStoreWithNativeUserValue::new(Fid::new(1));
    user.add_user_value(spam_update(date(2024, 1, 1), 1));
    let mut collection = UserCollection::default();
    collection.add_user(user).unwrap();
    let set = SetWithSpamEntries::new(&collection).unwrap();
    check_earliest_date(&set, date(2024, 1, 1));
    check_latest_date(&set, date(2024, 1, 1));
}

#[test]
fn test_basic_fid_score_shift_with_single_user() {
    let collection = basic_single_user_test_collection_with_n_spam_updates(2);
    let set = SetWithSpamEntries::new(&collection).unwrap();
    check_fid_score_shifts(&set, vec![[0, 1, 1]], date(2020, 1, 1), 1);
}

#[test]
fn test_fid_score_shifts_with_multiple_users() {
    let collection = basic_m_user_test_collection_with_n_spam_updates(3, 3);
    let set = SetWithSpamEntries::new(&collection).unwrap();
    check_fid_score_shifts(&set, vec![[3, 2, 3]], date(2019, 12, 19), 100);
}

#[test]
fn test_fid_score_shifts_with_dates_before_all_spam_scores() {
    let collection = basic_single_user_test_collection_with_n_spam_updates(1);
    let set = SetWithSpamEntries::new(&collection).unwrap();
    check_fid_score_shifts(&set, Vec::new(), date(2014, 1, 1), 1);
}

#[test]
fn second_test_fid_score_shifts_with_multiple_users() {
    let collection = basic_m_user_test_collection_with_n_spam_updates(6, 3);
    let set = SetWithSpamEntries::new(&collection).unwrap();
    check_fid_score_shifts(&set, vec![[0, 2, 1], [3, 2, 5]], date(2020, 1, 1), 100);
}

#[test]
fn test_spam_score_collision_error_for_invalid_record_add() {
    let day = date(2020, 1, 2);
    let earlier_date = date(2020, 1, 1);
    let mut user = UserStoreWithNativeUserValue::new(Fid::new(1));

    assert!(user.try_add_user_value(spam_update(day, 1)).is_ok());
    assert!(user.try_add_user_value(spam_update(day, 0)).is_err());
    assert!(user.try_add_user_value(spam_update(earlier_date, 0)).is_ok());

    let spam_user = UserWithSpamData::try_from_user(&user).unwrap();
    let spam_updates = spam_user.dated_spam_updates();
    let earliest_spam_score_date = spam_user.earliest_spam_update().date();
    let latest_spam_score_date = spam_user.latest_spam_update().date();
    let earliest_spam_score = spam_score_at_date_of(&spam_updates, earliest_spam_score_date).unwrap();
    let latest_spam_score = spam_score_at_date_of(&spam_updates, latest_spam_score_date).unwrap();

    assert_eq!(
        (earliest_spam_score, earliest_spam_score_date),
        (SpamScore::Zero, earlier_date)
    );
    assert_eq!((latest_spam_score, latest_spam_score_date), (SpamScore::One, day));
}

#[test]
fn weekly_counts_run_from_the_earliest_to_the_latest_date() {
    let users = dummy_data();
    let set = SetWithSpamEntries::new(&users).unwrap();
    let weekly = set.weekly_spam_score_counts();
    assert_eq!(weekly.len(), 57);
    assert_eq!(weekly[0].date(), date(2024, 1, 1));
    assert_eq!(weekly[1].date(), date(2024, 1, 8));
    assert_eq!(weekly[55].date(), date(2025, 1, 20));
    let last = weekly[56];
    assert_eq!(last.date(), date(2025, 1, 23));
    assert_eq!((last.spam(), last.maybe_spam(), last.non_spam()), (1, 0, 1));
    assert_eq!((weekly[1].spam(), weekly[1].maybe_spam(), weekly[1].non_spam()), (0, 1, 0));
}

#[test]
fn counts_by_score_add_up_to_the_users_with_a_score() {
    let users = dummy_data();
    let set = SetWithSpamEntries::new(&users).unwrap();
    for day in [date(2023, 12, 31), date(2024, 6, 1), date(2025, 1, 23), date(2030, 1, 1)] {
        let scored = set.user_count_with_spam_score_count_at_date(day);
        match set.spam_score_count_at_date(day) {
            Some(count) => assert_eq!(count.spam() + count.maybe_spam() + count.non_spam(), scored),
            None => assert_eq!(scored, 0),
        }
    }
    assert!(set.spam_score_count_at_date(date(2023, 12, 31)).is_none());
    assert_eq!(set.user_count_with_spam_score_count_at_date(date(2024, 6, 1)), 1);
    assert_eq!(set.user_count_with_spam_score_count_at_date(date(2025, 1, 23)), 2);
}

#[test]
fn current_count_covers_every_user() {
    let collection = create_users_with_cycling_spam_labels(10);
    let set = SetWithSpamEntries::new(&collection).unwrap();
    let count = set.current_spam_score_count();
    assert_eq!(count.total(), 10);
    assert_eq!(count.date(), date(2020, 1, 1));
}

#[test]
fn shift_counts_add_up_to_the_users_with_a_score_at_the_end() {
    let collection = basic_m_user_test_collection_with_n_spam_updates(6, 3);
    let set = SetWithSpamEntries::new(&collection).unwrap();
    let initial = date(2020, 1, 2);
    let shifts = set.spam_changes_with_fid_score_shift(initial, 2);
    let moved: usize = shifts.iter().map(|s| s.count()).sum();
    let end = next_day(initial, 2);
    assert_eq!(moved as u64, set.user_count_with_spam_score_count_at_date(end));
    assert!(shifts.iter().all(|s| s.count() > 0));
}

#[test]
fn count_updates_counts_each_date_once() {
    let users = dummy_data();
    let set = SetWithSpamEntries::new(&users).unwrap();
    let counts = set.count_updates();
    assert_eq!(counts.len(), 2);
    assert!(counts.contains(&(date(2024, 1, 1), 1)));
    assert!(counts.contains(&(date(2025, 1, 23), 2)));
}

#[test]
fn sets_from_subsets_keep_only_spam_users() {
    let mut users = dummy_data();
    users.add_user(UserStoreWithNativeUserValue::new(Fid::new(9))).unwrap();
    let subset = farmap::UsersSubset::from(&users);
    let set = SetWithSpamEntries::try_from(subset).unwrap();
    assert_eq!(set.user_count(), 2);
    assert!(set.user(9).is_none());
    assert_eq!(set.fid(2).unwrap().fid(), Fid::new(2));
    assert_eq!(set.into_iter().len(), 2);
}
