use farmap::{SetWithSpamEntries, TryFromUserSet, UserSet};
use farmap::{
    CastType, Date, Dated, DatedSpamUpdate, Fid, Fidded, SetWithCastData, SetWithCastDataError,
    SpamScore, UserCollection, UserStoreWithNativeUserValue, UserWithSpamData, UsersSubset,
};

fn date(y: i32, m: u32, d: u32) -> Date {
    Date::from_ymd_opt(y, m, d).unwrap()
}

fn spam_update(day: Date, score: usize) -> DatedSpamUpdate {
    DatedSpamUpdate::from(day, SpamScore::try_from(score).unwrap())
}

fn dummy_data() -> UserCollection {
    let mut one = UserStoreWithNativeUserValue::new(Fid::new(1));
    one.add_user_value(spam_update(date(2024, 1, 1), 1));
    one.add_user_value(spam_update(date(2025, 1, 23), 0));
    let mut two = UserStoreWithNativeUserValue::new(Fid::new(2));
    two.add_user_value(spam_update(date(2025, 1, 23), 2));
    let mut collection = UserCollection::default();
    collection.add_user(one).unwrap();
    collection.add_user(two).unwrap();
    collection
}

fn create_new_user(fid: i32) -> UserStoreWithNativeUserValue {
    let fid: Fid = Fid::try_from(fid).unwrap_or_else(|_| panic!("could not convert"));
    UserStoreWithNativeUserValue::new(fid)
}

fn is_fid(user: &UserStoreWithNativeUserValue, fid: u64) -> bool {
    user.fid() == Fid::new(fid)
}

fn valid_spam_user(user: &UserStoreWithNativeUserValue) -> UserWithSpamData<'_> {
    UserWithSpamData::try_from_user(user).unwrap()
}

fn check_spam_score_at_date(user: &UserWithSpamData, spam_score: Option<usize>, day: Date) {
    assert_eq!(
        user.spam_score_at_date(day),
        spam_score.map(|score| SpamScore::try_from(score).unwrap())
    );
}

#[test]
fn test_user_count_on_dir_with_new() {
    assert_eq!(dummy_data().user_count(), 2);
}

#[test]
fn test_empty_user_count() {
    let collection = UserCollection::default();
    assert_eq!(collection.user_count(), 0);
}

#[test]
fn test_non_empty_user_count() {
    let mut collection = UserCollection::default();
    collection.add_user(create_new_user(1)).unwrap();
    collection.add_user(create_new_user(2)).unwrap();
    assert_eq!(collection.user_count(), 2);
}

#[test]
fn duplicate_user_is_refused() {
    let mut collection = UserCollection::default();
    collection.add_user(create_new_user(1)).unwrap();
    assert!(collection.add_user(create_new_user(1)).is_err());
    assert_eq!(collection.user_count(), 1);
}

#[test]
fn empty_set() {
    let users = UserCollection::default();
    let set = UsersSubset::from(&users);
    assert_eq!(set.user_count(), 0);
}

#[test]
fn test_user_count_with_new() {
    let users = dummy_data();
    let set = UsersSubset::from(&users);
    assert_eq!(set.user_count(), 2);
}

#[test]
fn test_user_count_on_empty_set() {
    let users = UserCollection::default();
    let set = UsersSubset::from(&users);
    assert_eq!(set.user_count(), 0);
}

#[test]
fn test_user_count_before_and_after_filter() {
    let users = dummy_data();
    let mut set = UsersSubset::from(&users);
    assert_eq!(set.user_count(), 2);
    set.filter(|user: &UserStoreWithNativeUserValue| is_fid(user, 1));
    assert_eq!(set.user_count(), 1);
}

#[test]
fn test_user_count_before_and_after_filter_two() {
    let users = dummy_data();
    let mut set = UsersSubset::from(&users);
    assert_eq!(set.user_count(), 2);
    set.filter(|user: &UserStoreWithNativeUserValue| !is_fid(user, 3));
    assert_eq!(set.user_count(), 2);
}

#[test]
fn filtered_subset_leaves_its_source_unchanged() {
    let users = dummy_data();
    let set = UsersSubset::from(&users);
    let only_two = set.filtered(|user: &UserStoreWithNativeUserValue| is_fid(user, 2));
    assert_eq!(only_two.user_count(), 1);
    assert!(only_two.user(Fid::new(2)).is_some());
    assert!(only_two.user(Fid::new(1)).is_none());
    assert_eq!(set.user_count(), 2);
}

#[test]
fn test_user_with_single_spam_score() {
    let mut user = UserStoreWithNativeUserValue::new(Fid::new(1));
    user.add_user_value(spam_update(date(2024, 3, 5), 1));
    let spam_user = valid_spam_user(&user);
    check_spam_score_at_date(&spam_user, None, date(2024, 3, 4));
    check_spam_score_at_date(&spam_user, Some(1), date(2024, 3, 5));
}

#[test]
fn test_spam_scores_on_dummy_data() {
    let collection = dummy_data();
    let user = valid_spam_user(collection.user(Fid::new(1)).unwrap());
    check_spam_score_at_date(&user, None, date(2023, 1, 25));
    check_spam_score_at_date(&user, Some(1), date(2024, 1, 25));
    check_spam_score_at_date(&user, Some(1), date(2025, 1, 20));
    check_spam_score_at_date(&user, Some(0), date(2025, 1, 23));
    check_spam_score_at_date(&user, Some(0), date(2025, 1, 25));
}

#[test]
fn dummy_data_earliest_spam_date() {
    let collection = dummy_data();
    let user = valid_spam_user(collection.user(Fid::new(1)).unwrap());
    assert_eq!(user.earliest_spam_update().date(), date(2024, 1, 1));
    let user = valid_spam_user(collection.user(Fid::new(2)).unwrap());
    assert_eq!(user.earliest_spam_update().date(), date(2025, 1, 23));
}

#[test]
fn user_without_spam_data_is_refused() {
    let user = UserStoreWithNativeUserValue::new(Fid::new(4));
    assert!(UserWithSpamData::try_from_user(&user).is_err());
}

#[test]
fn user_store_with_native_user_value_test_user_values_of_kind_is_none_on_none_user_values() {
    let user = create_new_user(1);
    assert!(user.user_values_of_kind::<DatedSpamUpdate>().is_empty());
}

fn same_date_casts(count: usize, day: Date) -> Vec<Fidded<Dated<CastType>>> {
    (0..count)
        .map(|n| Fidded::new(Dated::new(CastType::CAST, day), Fid::new(n as u64 + 1)))
        .collect()
}

#[test]
fn test_err_on_try_from_with_no_cast_data() {
    let collection = dummy_data();
    match SetWithCastData::try_from(&collection) {
        Err(err) => assert_eq!(err, SetWithCastDataError::EmptySetError),
        Ok(_) => panic!("invalid user set should return error"),
    }
}

#[test]
fn test_valid_create() {
    let day = date(2024, 1, 1);
    let mut collection = UserCollection::default();
    collection.add_user_value_iter(same_date_casts(10, day));
    let set = SetWithCastData::try_from(&collection).unwrap();
    assert_eq!(set.user_count(), 10);
    assert_eq!(set.total_casts(), Some(10));
    assert_eq!(set.into_iter().len(), 10);
}

#[test]
fn cast_users_are_found_by_fid() {
    let day = date(2024, 1, 1);
    let mut collection = dummy_data();
    collection.add_user_value_iter(same_date_casts(3, day));
    let set = SetWithCastData::try_from(&collection).unwrap();
    assert_eq!(set.user_count(), 3);
    assert_eq!(set.user(3).unwrap().cast_count(), 1);
    assert!(set.user(7).is_none());
}

#[test]
fn user_test_user_values_of_kind_is_none_on_none_user_values() {
    let user = farmap::User::new(1);
    assert!(user.user_values_of_kind::<DatedSpamUpdate>().is_empty());
}

#[test]
fn user_keeps_one_copy_of_a_value_added_twice() {
    let mut user = farmap::User::new(5);
    let value = spam_update(date(2024, 1, 1), 1);
    user.add_user_value(value).unwrap();
    user.add_user_value(value).unwrap();
    assert_eq!(user.user_values_of_kind::<DatedSpamUpdate>().len(), 1);
    assert!(user.has::<DatedSpamUpdate>());
    assert!(!user.has::<Dated<CastType>>());
    assert_eq!(user.all_user_values().as_ref().unwrap().len(), 1);
    assert_eq!(user.fid(), 5);
}

#[test]
fn user_refuses_a_colliding_value() {
    let mut user = farmap::User::new(5);
    assert!(user.try_add_user_value(spam_update(date(2024, 1, 1), 1)).is_ok());
    assert!(user.try_add_user_value(spam_update(date(2024, 1, 1), 2)).is_err());
    assert!(user.try_add_user_value(spam_update(date(2024, 1, 2), 2)).is_ok());
    assert_eq!(user.user_values_of_kind::<DatedSpamUpdate>().len(), 2);
}

#[test]
fn cast_sets_from_other_sets() {
    let day = date(2024, 1, 1);
    let mut collection = dummy_data();
    collection.add_user_value_iter(same_date_casts(3, day));
    let subset = UsersSubset::from(&collection);
    assert_eq!(UserSet::user_count(&subset), 3);
    let set = <SetWithCastData as TryFromUserSet<UsersSubset>>::try_from_set(subset).unwrap();
    assert_eq!(set.user_count(), 3);

    let spam_only = dummy_data();
    let spam_set = SetWithSpamEntries::new(&spam_only).unwrap();
    assert!(UserSet::user(&spam_set, 2).is_some());
    assert_eq!(UserSet::into_members(spam_set.clone()).len(), 2);
    let refused = <SetWithCastData as TryFromUserSet<SetWithSpamEntries>>::try_from_set(spam_set);
    assert_eq!(refused.err(), Some(SetWithCastDataError::EmptySetError));
}
