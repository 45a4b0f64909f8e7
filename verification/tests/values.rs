use farmap::fetch::pinata_parser::farcaster_date;
use farmap::fid_score_shift::{ShiftSource, ShiftTarget};
use farmap::{
    CastType, Date, DatedSpamScoreCount, DatedSpamUpdate, FidScoreShift, SpamScore, SpamScoreCount,
};

fn date(y: i32, m: u32, d: u32) -> Date {
    Date::from_ymd_opt(y, m, d).unwrap()
}

#[test]
fn test_label_value_invalid_input() {
    assert!(SpamScore::try_from(0).is_ok());
    assert!(SpamScore::try_from(1).is_ok());
    assert!(SpamScore::try_from(2).is_ok());
    assert!(SpamScore::try_from(3).is_err());
    assert!(SpamScore::try_from(100).is_err());
}

#[test]
fn basic_spam_score_count_test() {
    let count = DatedSpamScoreCount::from(date(2024, 1, 1), [100u64, 150, 200]);
    assert_eq!(count.spam(), 100);
    assert_eq!(count.maybe_spam(), 150);
    assert_eq!(count.non_spam(), 200);
    assert_eq!(count.total(), 100 + 150 + 200);
}

#[test]
fn spam_score_count_adds_by_score() {
    let mut count = SpamScoreCount::new(0, 0, 0);
    count.add(SpamScore::Zero);
    count.add(SpamScore::Two);
    count.add(SpamScore::Two);
    assert_eq!((count.spam(), count.maybe_spam(), count.non_spam()), (1, 0, 2));
    assert_eq!(count.total(), 3);
    let array: [u64; 3] = count.into();
    assert_eq!(array, [1, 0, 2]);
}

#[test]
fn spam_score_numbers() {
    assert_eq!(SpamScore::Zero.number(), 0);
    assert_eq!(SpamScore::Two.number(), 2);
}

#[test]
fn dated_spam_update_holds_its_date_and_score() {
    let update = DatedSpamUpdate::from(date(2024, 2, 29), SpamScore::One);
    assert_eq!(update.date(), date(2024, 2, 29));
    assert_eq!(update.inner().score(), SpamScore::One);
}

#[test]
fn cast_type_from_name() {
    assert_eq!(CastType::try_from("CAST"), Ok(CastType::CAST));
    assert!(CastType::try_from("LIKE").is_err());
}

#[test]
fn fid_score_shift_index_round_trip() {
    for index in 0..12usize {
        let shift = FidScoreShift::try_from(index).unwrap();
        let back: usize = shift.try_into().unwrap();
        assert_eq!(back, index);
        assert_eq!(shift.count(), 0);
    }
    assert!(FidScoreShift::try_from(12usize).is_err());
    let removed = FidScoreShift::new(ShiftSource::Zero, ShiftTarget::Removed, 0);
    assert!(usize::try_from(removed).is_err());
}

#[test]
fn fid_score_shift_counts_up() {
    let mut shift = FidScoreShift::new(ShiftSource::New, ShiftTarget::Two, 0);
    shift.increment();
    shift.add();
    assert_eq!(shift.count(), 2);
    assert_eq!(shift.source(), ShiftSource::New);
    assert_eq!(shift.target(), ShiftTarget::Two);
    assert_eq!(usize::try_from(shift).unwrap(), 11);
}

#[test]
fn shift_sources_from_numbers() {
    assert_eq!(ShiftSource::try_from(3u8).unwrap(), ShiftSource::New);
    assert!(ShiftSource::try_from(4u8).is_err());
    assert_eq!(ShiftTarget::try_from(3u8).unwrap(), ShiftTarget::Removed);
    assert_eq!(ShiftSource::from(SpamScore::One), ShiftSource::One);
}

#[test]
fn dated_values_convert_and_keep_their_date() {
    let day = date(2024, 5, 5);
    let ok = farmap::Dated::new(1usize, day).try_map_into::<SpamScore>().unwrap();
    assert_eq!(ok.date(), day);
    assert_eq!(*ok.inner(), SpamScore::One);
    assert!(farmap::Dated::new(5usize, day).try_map_into::<SpamScore>().is_err());
    let update = DatedSpamUpdate::from(day, SpamScore::Two);
    assert_eq!(update.score(), SpamScore::Two);
}

#[test]
fn farcaster_dates_count_days_from_the_farcaster_epoch() {
    assert_eq!(farcaster_date(0), Some(date(2021, 1, 1)));
    assert_eq!(farcaster_date(86_399), Some(date(2021, 1, 1)));
    assert_eq!(farcaster_date(86_400 * 31), Some(date(2021, 2, 1)));
    assert_eq!(farcaster_date(-86_399), Some(date(2021, 1, 1)));
    assert_eq!(farcaster_date(-86_400), Some(date(2020, 12, 31)));
    assert_eq!(farcaster_date(i64::MAX), None);
}

#[test]
fn commit_hashes_keep_their_first_four_hex_digits() {
    use_commit_hash("abcd0123456789abcdef0123456789abcdef0123", Some(0xabcd));
    use_commit_hash("ABCD0123456789abcdef0123456789abcdef0123", Some(0xabcd));
    use_commit_hash("abcd0123456789abcdef0123456789abcdef012", None);
    use_commit_hash("xbcd0123456789abcdef0123456789abcdef0123", None);
    use_commit_hash("+abc0123456789abcdef0123456789abcdef0123", Some(0xabc));
}

fn use_commit_hash(text: &str, expected: Option<u32>) {
    let hash = farmap::spam_score::CommitHash::try_from(text.to_string());
    assert_eq!(hash.ok().map(|h| h.value()), expected);
}
