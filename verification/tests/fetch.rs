use farmap::fetch::github_parser::parse_status;
use farmap::fetch::ImporterError;
use farmap::fetch::github_parser::into_fidded_user_value_iter;
use farmap::fetch::local_spam_label_importer::{
    import_data_from_file, import_data_from_file_with_collected_res, import_data_from_file_with_res,
};
use farmap::fetch::{DataReadError, InvalidJsonlError, RetrieveError};
use farmap::{Date, DatedSpamUpdate, Fid, Fidded, SpamDataParseError, SpamScore, UnprocessedUserLine};

fn line(fid: u64, label_value: usize, timestamp: usize) -> UnprocessedUserLine {
    UnprocessedUserLine::new(
        2,
        fid,
        "user".to_string(),
        "spam".to_string(),
        label_value,
        timestamp,
    )
}

#[test]
fn test_error_on_nonexisting_file() {
    let result = import_data_from_file_with_res("no-data-here", None);
    assert_eq!(
        result,
        Err(DataReadError::InvalidDataPathError { path: "no-data-here".to_string() })
    );
}

#[test]
fn test_error_on_invalid_json_with_error_collect() {
    let path = "data/invalid-data/data.jsonl";
    let lines = vec![
        Ok(line(1, 1, 1_700_000_000)),
        Err(InvalidJsonlError { path: path.to_string() }),
        Ok(line(2, 0, 1_700_000_000)),
    ];
    let result = import_data_from_file_with_res(path, Some(lines));
    match result {
        Err(DataReadError::InvalidJsonlError(..)) => (),
        Err(_) => panic!(),
        Ok(_) => panic!(),
    }
}

#[test]
fn valid_lines_are_all_returned() {
    let lines = vec![Ok(line(1, 1, 1_700_000_000)), Ok(line(2, 0, 0))];
    let result = import_data_from_file_with_res("spam.jsonl", Some(lines)).unwrap();
    assert_eq!(result.len(), 2);
    assert_eq!(result[1].fid(), 2);
}

#[test]
fn collected_lines_keep_their_errors() {
    let lines = vec![Ok(line(1, 1, 0)), Err(InvalidJsonlError { path: "a".to_string() })];
    let result = import_data_from_file_with_collected_res("a", Some(lines)).unwrap();
    assert_eq!(result.iter().filter(|x| x.is_err()).count(), 1);
    assert!(import_data_from_file_with_collected_res("a", None).is_err());
}

#[test]
fn line_converts_to_a_spam_update() {
    let update = Fidded::<DatedSpamUpdate>::try_from(line(7, 2, 86_400 * 3 + 5)).unwrap();
    assert_eq!(update.fid(), Fid::new(7));
    let inner = update.unfid();
    assert_eq!(inner.date(), Date::from_ymd_opt(1970, 1, 4).unwrap());
    assert_eq!(inner.inner().score(), SpamScore::Two);
}

#[test]
fn line_with_bad_label_value_is_refused() {
    let result = Fidded::<DatedSpamUpdate>::try_from(line(7, 5, 0));
    assert!(matches!(result, Err(SpamDataParseError::SpamScoreError(_))));
}

#[test]
fn line_with_timestamp_past_all_dates_is_refused() {
    let timestamp = 9_000_000_000_000_000usize;
    let result = Fidded::<DatedSpamUpdate>::try_from(line(7, 5, timestamp));
    assert_eq!(result, Err(SpamDataParseError::DateError { timestamp }));
}

#[test]
fn file_import_converts_the_lines_that_were_read() {
    let lines = vec![
        Ok(line(1, 1, 1_700_000_000)),
        Err(InvalidJsonlError { path: "f".to_string() }),
        Ok(line(2, 0, 1_700_000_000)),
    ];
    let updates = import_data_from_file("f", Some(lines)).unwrap();
    assert_eq!(updates.len(), 2);
    assert_eq!(updates[1].fid(), Fid::new(2));
    assert_eq!(import_data_from_file("f", None).unwrap_err(), RetrieveError::CouldNotFetchData);
    let bad = vec![Ok(line(1, 9, 0))];
    assert_eq!(import_data_from_file("f", Some(bad)).unwrap_err(), RetrieveError::InvalidFetchedData);
}

#[test]
fn fetched_lines_become_spam_updates() {
    let updates = into_fidded_user_value_iter(vec![line(3, 0, 0), line(4, 1, 86_400)]);
    assert_eq!(updates.len(), 2);
    assert_eq!(updates[0].fid(), Fid::new(3));
}

#[test]
fn commit_listings_give_their_hashes() {
    let listing = "[{\"sha\": \"abc123\", \"node_id\": \"x\"}, {\"sha\": \"def456\"}]";
    assert_eq!(
        parse_status(listing),
        Ok(vec![String::from("abc123"), String::from("def456")])
    );
    assert_eq!(parse_status("[]"), Ok(Vec::new()));
}

#[test]
fn bad_commit_listings_are_refused_with_the_listing() {
    for listing in ["[{\"sha\": \"abc\"}, {\"node_id\": \"x\"}]", "{\"sha\": \"abc\"}", "not json", "[1]"] {
        assert_eq!(parse_status(listing), Err(ImporterError::BadApiResponse(String::from(listing))));
    }
}

#[test]
fn hashes_lose_their_quotes_only() {
    assert_eq!(parse_status("[{\"sha\": 12}]"), Ok(vec![String::from("12")]));
}
