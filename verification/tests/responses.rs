use farmap::fetch::pinata_parser::{
    casts_from_pinata_text, followers_from_pinata_text, reaction_timestamps_from_pinata_text,
};
use farmap::fetch::wield_parser::followers_from_wield_text;
use farmap::fetch::ImporterError;
use farmap::{CastType, Date, Fid};

fn date(y: i32, m: u32, d: u32) -> Date {
    Date::from_ymd_opt(y, m, d).unwrap()
}

/// The json text that serde_json writes for `text`.
fn compact(text: &str) -> String {
    serde_json::from_str::<serde_json::Value>(text).unwrap().to_string()
}

fn cast_message(timestamp: &str, cast_type: &str, fid: &str) -> String {
    format!(
        "{{\"data\": {{\"timestamp\": {timestamp}, \"castAddBody\": {{\"type\": {cast_type}}}, \"fid\": {fid}}}}}"
    )
}

fn response(messages: &[String]) -> String {
    format!("{{\"messages\": [{}]}}", messages.join(", "))
}

#[test]
fn parse_example_response() {
    let example = "{
  \"result\": {
    \"users\": [
      {
        \"fid\": \"111\",
        \"followingCount\": 123,
        \"followerCount\": 123,
        \"pfp\": {
          \"url\": \"test.com\",
          \"verified\": true
        },
        \"bio\": {
          \"text\": \"a test\",
          \"mentions\": [
            \"<string>\"
          ]
        },
        \"external\": true,
        \"custodyAddress\": \"....\",
        \"username\": \"....\",
        \"displayName\": \"....\",
        \"registeredAt\": \"2023-11-07T05:31:56Z\"
      }
    ]
  },
  \"next\": \"<string>\",
  \"source\": \"v2\"
}";
    assert_eq!(*followers_from_wield_text(example).unwrap().first().unwrap(), 111);
}

#[test]
fn wield_responses_without_users_or_fids_are_refused() {
    let no_users = "{\"result\": {}}";
    assert_eq!(
        followers_from_wield_text(no_users),
        Err(ImporterError::BadApiResponse(compact(no_users)))
    );
    let number_fid = "{\"result\": {\"users\": [{\"fid\": \"1\"}, {\"fid\": 2}]}}";
    assert_eq!(
        followers_from_wield_text(number_fid),
        Err(ImporterError::BadApiResponse(compact(number_fid)))
    );
    assert_eq!(
        followers_from_wield_text("no json"),
        Err(ImporterError::BadApiResponse(String::from("no json")))
    );
    assert_eq!(followers_from_wield_text("{\"result\": {\"users\": []}}"), Ok(Vec::new()));
}

#[test]
fn pinata_casts_carry_fid_date_and_type() {
    let text = response(&[
        cast_message("86400", "\"CAST\"", "7"),
        cast_message("-1", "\"CAST\"", "8"),
    ]);
    let casts = casts_from_pinata_text(&text).unwrap().unwrap();
    assert_eq!(casts.len(), 2);
    assert_eq!(casts[0].fid(), Fid::new(7));
    assert_eq!(casts[0].clone().unfid().date(), date(2021, 1, 2));
    assert_eq!(*casts[1].clone().unfid().inner(), CastType::CAST);
    assert_eq!(casts[1].clone().unfid().date(), date(2021, 1, 1));
}

#[test]
fn pinata_cast_errors_name_the_first_bad_message() {
    let bad_time = cast_message("\"12\"", "\"CAST\"", "7");
    let text = response(&[cast_message("0", "\"CAST\"", "1"), bad_time.clone()]);
    assert_eq!(
        casts_from_pinata_text(&text),
        Some(Err(ImporterError::BadApiResponse(compact(&bad_time))))
    );
    let bad_type = cast_message("0", "\"LIKE\"", "7");
    assert_eq!(
        casts_from_pinata_text(&response(&[bad_type.clone()])),
        Some(Err(ImporterError::BadApiResponse(compact(&bad_type))))
    );
    let no_fid = cast_message("0", "\"CAST\"", "\"7\"");
    assert_eq!(
        casts_from_pinata_text(&response(&[no_fid, bad_type])),
        Some(Err(ImporterError::FailedApiRequest))
    );
    assert_eq!(
        casts_from_pinata_text("{oops"),
        Some(Err(ImporterError::BadApiResponse(String::from("{oops"))))
    );
}

#[test]
fn pinata_casts_need_messages_and_dates() {
    assert!(casts_from_pinata_text("{\"other\": 1}").is_none());
    let far = response(&[cast_message("9223372036854775807", "\"CAST\"", "1")]);
    assert!(casts_from_pinata_text(&far).is_none());
}

#[test]
fn pinata_followers_and_reactions() {
    let text = response(&[
        cast_message("5", "\"CAST\"", "3"),
        cast_message("-7", "\"CAST\"", "4"),
    ]);
    assert_eq!(followers_from_pinata_text(&text), Ok(vec![3, 4]));
    assert_eq!(reaction_timestamps_from_pinata_text(&text), Some(Ok(vec![5, -7])));
    let no_messages = "{\"other\": [1]}";
    assert_eq!(
        followers_from_pinata_text(no_messages),
        Err(ImporterError::BadApiResponse(compact(no_messages)))
    );
    assert!(reaction_timestamps_from_pinata_text(no_messages).is_none());
    let missing = "{\"data\": {}}".to_string();
    assert_eq!(
        followers_from_pinata_text(&response(&[missing.clone()])),
        Err(ImporterError::BadApiResponse(compact(&missing)))
    );
    assert_eq!(
        reaction_timestamps_from_pinata_text(&response(&[missing.clone()])),
        Some(Err(ImporterError::BadApiResponse(compact(&missing))))
    );
}
