//! Cast data fetched from a farcaster hub on Pinata.
use crate::cast_type::{cast_type_of, CastType};
use crate::date::{ymd_to_day, Date, MAX_DAY, MIN_DAY};
use crate::dated::Dated;
use crate::fetch::errors::ImporterError;
use crate::fetch::json_lists::{
    i64_of_text, json_list, json_list_records, lemma_read_each_next, lemma_read_each_stops,
    parse_i64, read_each, JsonRecord,
};
use crate::fid::Fid;
use crate::fidded::Fidded;
use vstd::prelude::*;
use vstd::string::StringExecFns;

verus! {

/// Day number of 2021-01-01, the farcaster epoch, at which farcaster timestamps are zero.
pub const FARCASTER_EPOCH_DAY: i32 = 737791;

/// The farcaster epoch is 2021-01-01.
pub proof fn lemma_farcaster_epoch()
    ensures
        FARCASTER_EPOCH_DAY == ymd_to_day(2021, 1, 1),
{
}

/// Whole days in `secs` seconds, counted toward zero.
pub open spec fn days_toward_zero(secs: int) -> int {
    if secs >= 0 {
        secs / 86400
    } else {
        -((-secs) / 86400)
    }
}

/// The date of a farcaster timestamp, the seconds since the farcaster epoch: the epoch moved
/// by the whole days of the timestamp, counted toward zero; `None` where no date can hold it.
pub fn farcaster_date(timestamp: i64) -> (r: Option<Date>)
    ensures
        r is Some <==> MIN_DAY <= FARCASTER_EPOCH_DAY + days_toward_zero(timestamp as int)
            <= MAX_DAY,
        r matches Some(d) ==> d.day_number() == FARCASTER_EPOCH_DAY + days_toward_zero(
            timestamp as int,
        ),
{
    let t: i128 = timestamp as i128;
    let days: i128 = if t >= 0 {
        t / 86400
    } else {
        -((-t) / 86400)
    };
    let day: i128 = FARCASTER_EPOCH_DAY as i128 + days;
    if day < MIN_DAY as i128 || day > MAX_DAY as i128 {
        None
    } else {
        Date::from_days_from_ce(day as i32)
    }
}

/// Whether `e` is the error `f` stands for: a bad response holding the text `f` holds, or,
/// where `f` holds none, a failed request.
pub open spec fn error_is(e: ImporterError, f: Option<Seq<char>>) -> bool {
    match f {
        Some(t) => e matches ImporterError::BadApiResponse(s) && s@ == t,
        None => e is FailedApiRequest,
    }
}

/// The cast that a message of a hub response stands for, as its fid, the day number of its
/// date and its type, read in that order: its timestamp (a json text that writes an `i64`)
/// and the date it gives; its type; its fid. A bad timestamp, a type that is no string or
/// names no cast type, give the error of a bad response holding the message; a missing fid the
/// error of a failed request. None where the date of the timestamp is no date.
pub open spec fn cast_of_message(m: JsonRecord) -> Option<Result<(u64, int, CastType), Option<Seq<char>>>> {
    match m.1 {
        None => Some(Err(Some(m.0))),
        Some(t) => match i64_of_text(t) {
            None => Some(Err(Some(m.0))),
            Some(ts) => {
                let day = FARCASTER_EPOCH_DAY + days_toward_zero(ts as int);
                if !(MIN_DAY <= day <= MAX_DAY) {
                    None
                } else {
                    match m.2 {
                        None => Some(Err(Some(m.0))),
                        Some(name) => match cast_type_of(name) {
                            Err(_) => Some(Err(Some(m.0))),
                            Ok(cast_type) => match m.3 {
                                None => Some(Err(None)),
                                Some(fid) => Some(Ok((fid, day, cast_type))),
                            },
                        },
                    }
                }
            },
        },
    }
}

/// [`cast_of_message`] as a spec closure.
pub open spec fn cast_reader() -> spec_fn(JsonRecord) -> Option<
    Result<(u64, int, CastType), Option<Seq<char>>>,
> {
    |m: JsonRecord| cast_of_message(m)
}

/// The casts of the hub response `input`: its messages, the array at `messages`, each read as
/// [`cast_of_message`] says, up to the first that fails. A text that is no json gives the
/// error of a bad response holding the text; none where there is no array of messages.
pub open spec fn pinata_casts(input: Seq<char>) -> Option<
    Result<Seq<(u64, int, CastType)>, Option<Seq<char>>>,
> {
    match json_list(
        input,
        "/messages"@,
        "/data/timestamp"@,
        "/data/castAddBody/type"@,
        "/data/fid"@,
    ) {
        None => Some(Err(Some(input))),
        Some((_, None)) => None,
        Some((_, Some(ms))) => read_each(ms, cast_reader()),
    }
}

/// Whether the cast `c` is the one that `v` gives: its fid, day number and type.
pub open spec fn cast_is(c: Fidded<Dated<CastType>>, v: (u64, int, CastType)) -> bool {
    &&& c.spec_fid()@ == v.0
    &&& c.spec_unfid().spec_date().day_number() == v.1
    &&& c.spec_unfid().spec_inner() == v.2
}

/// The casts of the hub response text `input`, as [`pinata_casts`] states; none where the
/// response has no array of messages or a message has a timestamp whose date is no date.
pub fn casts_from_pinata_text(input: &str) -> (r: Option<
    Result<Vec<Fidded<Dated<CastType>>>, ImporterError>,
>)
    ensures
        r is None <==> pinata_casts(input@) is None,
        r matches Some(Ok(v)) ==> (pinata_casts(input@) matches Some(Ok(cs)) && v@.len()
            == cs.len() && forall|i: int| 0 <= i < v@.len() ==> cast_is(#[trigger] v@[i], cs[i])),
        r matches Some(Err(e)) ==> (pinata_casts(input@) matches Some(Err(f)) && error_is(e, f)),
{
    let list = "/messages";
    let ts_at = "/data/timestamp";
    let type_at = "/data/castAddBody/type";
    let fid_at = "/data/fid";
    proof {
        assert(list@ == "/messages"@);
        assert(ts_at@ == "/data/timestamp"@);
        assert(type_at@ == "/data/castAddBody/type"@);
        assert(fid_at@ == "/data/fid"@);
    }
    let ghost j = json_list(input@, list@, ts_at@, type_at@, fid_at@);
    let records = match json_list_records(input, list, ts_at, type_at, fid_at) {
        None => {
            return Some(Err(ImporterError::BadApiResponse(String::from_str(input))));
        },
        Some((_, None)) => {
            return None;
        },
        Some((_, Some(records))) => records,
    };
    let ghost ms = j.unwrap().1.unwrap();
    let ghost f = cast_reader();
    let n = records.len();
    let mut casts: Vec<Fidded<Dated<CastType>>> = Vec::new();
    let mut i: usize = 0;
    while i < n
        invariant
            n == records@.len(),
            n == ms.len(),
            f == cast_reader(),
            pinata_casts(input@) == read_each(ms, f),
            forall|k: int| 0 <= k < n ==> record_is_at(records@, ms, k),
            i <= n,
            read_each(ms.take(i as int), f) matches Some(Ok(cs)) && casts@.len() == cs.len()
                && forall|k: int| 0 <= k < casts@.len() ==> cast_is(#[trigger] casts@[k], cs[k]),
        decreases n - i,
    {
        proof {
            lemma_read_each_next(ms, f, i as int);
            assert(record_is_at(records@, ms, i as int));
        }
        let rec = &records[i];
        let failed = Some(Err(ImporterError::BadApiResponse(rec.0.clone())));
        let t = match &rec.1 {
            Some(t) => t,
            None => {
                proof {
                    lemma_read_each_stops(ms, f, i + 1);
                }
                return failed;
            },
        };
        let ts = match parse_i64(t.as_str()) {
            Some(ts) => ts,
            None => {
                proof {
                    lemma_read_each_stops(ms, f, i + 1);
                }
                return failed;
            },
        };
        let date = match farcaster_date(ts) {
            Some(d) => d,
            None => {
                proof {
                    lemma_read_each_stops(ms, f, i + 1);
                }
                return None;
            },
        };
        let name = match &rec.2 {
            Some(name) => name,
            None => {
                proof {
                    lemma_read_each_stops(ms, f, i + 1);
                }
                return failed;
            },
        };
        let cast_type = match CastType::from_name(name.as_str()) {
            Ok(c) => c,
            Err(_) => {
                proof {
                    lemma_read_each_stops(ms, f, i + 1);
                }
                return failed;
            },
        };
        let fid = match rec.3 {
            Some(fid) => fid,
            None => {
                proof {
                    lemma_read_each_stops(ms, f, i + 1);
                }
                return Some(Err(ImporterError::FailedApiRequest));
            },
        };
        casts.push(Fidded::new(Dated::new(cast_type, date), Fid::new(fid)));
        i = i + 1;
    }
    proof {
        assert(ms.take(n as int) =~= ms);
    }
    Some(Ok(casts))
}

/// Whether the `k`-th record read in strings is the `k`-th record `ms` names.
pub open spec fn record_is_at(
    records: Seq<(String, Option<String>, Option<String>, Option<u64>)>,
    ms: Seq<JsonRecord>,
    k: int,
) -> bool {
    crate::fetch::json_lists::record_is(records[k], ms[k])
}

/// The fid of a message of a hub response; the error of a bad response holding the message
/// where it has no unsigned fid.
pub open spec fn follower_reader() -> spec_fn(JsonRecord) -> Option<Result<u64, Option<Seq<char>>>> {
    |m: JsonRecord|
        match m.3 {
            Some(fid) => Some(Ok(fid)),
            None => Some(Err(Some(m.0))),
        }
}

/// The followers of a hub response to a link request: the fid of each message of the array
/// at `messages`, up to the first that has none. A text that is no json gives the error of a
/// bad response holding the text; a response without an array of messages the error of a bad
/// response holding its json text.
pub open spec fn pinata_followers(input: Seq<char>) -> Result<Seq<u64>, Option<Seq<char>>> {
    match json_list(input, "/messages"@, "/data/timestamp"@, "/data/castAddBody/type"@, "/data/fid"@) {
        None => Err(Some(input)),
        Some((text, None)) => Err(Some(text)),
        Some((_, Some(ms))) => match read_each(ms, follower_reader()) {
            Some(Ok(fids)) => Ok(fids),
            Some(Err(e)) => Err(e),
            None => Err(None),
        },
    }
}

/// The followers of the hub response text `input`, as [`pinata_followers`] states.
pub fn followers_from_pinata_text(input: &str) -> (r: Result<Vec<u64>, ImporterError>)
    ensures
        r matches Ok(v) ==> pinata_followers(input@) == Ok::<Seq<u64>, Option<Seq<char>>>(v@),
        r matches Err(e) ==> (pinata_followers(input@) matches Err(f) && error_is(e, f)),
{
    let list = "/messages";
    let ts_at = "/data/timestamp";
    let type_at = "/data/castAddBody/type";
    let fid_at = "/data/fid";
    proof {
        assert(list@ == "/messages"@);
        assert(ts_at@ == "/data/timestamp"@);
        assert(type_at@ == "/data/castAddBody/type"@);
        assert(fid_at@ == "/data/fid"@);
    }
    let ghost j = json_list(input@, list@, ts_at@, type_at@, fid_at@);
    let records = match json_list_records(input, list, ts_at, type_at, fid_at) {
        None => {
            return Err(ImporterError::BadApiResponse(String::from_str(input)));
        },
        Some((text, None)) => {
            return Err(ImporterError::BadApiResponse(text));
        },
        Some((_, Some(records))) => records,
    };
    let ghost ms = j.unwrap().1.unwrap();
    let ghost f = follower_reader();
    let n = records.len();
    let mut fids: Vec<u64> = Vec::new();
    let mut i: usize = 0;
    while i < n
        invariant
            n == records@.len(),
            n == ms.len(),
            f == follower_reader(),
            j matches Some((_, Some(x))) && x == ms,
            pinata_followers(input@) == match read_each(ms, f) {
                Some(Ok(fids)) => Ok(fids),
                Some(Err(e)) => Err(e),
                None => Err::<Seq<u64>, Option<Seq<char>>>(None),
            },
            forall|k: int| 0 <= k < n ==> record_is_at(records@, ms, k),
            i <= n,
            read_each(ms.take(i as int), f) == Some(Ok::<Seq<u64>, Option<Seq<char>>>(fids@)),
        decreases n - i,
    {
        proof {
            lemma_read_each_next(ms, f, i as int);
            assert(record_is_at(records@, ms, i as int));
        }
        let rec = &records[i];
        match rec.3 {
            Some(fid) => {
                fids.push(fid);
            },
            None => {
                proof {
                    lemma_read_each_stops(ms, f, i + 1);
                }
                return Err(ImporterError::BadApiResponse(rec.0.clone()));
            },
        }
        i = i + 1;
    }
    proof {
        assert(ms.take(n as int) =~= ms);
    }
    Ok(fids)
}

/// The timestamp of a message of a hub response; the error of a bad response holding the
/// message where its timestamp writes no `i64`.
pub open spec fn timestamp_reader() -> spec_fn(JsonRecord) -> Option<Result<i64, Option<Seq<char>>>> {
    |m: JsonRecord|
        match m.1 {
            Some(t) => match i64_of_text(t) {
                Some(ts) => Some(Ok(ts)),
                None => Some(Err(Some(m.0))),
            },
            None => Some(Err(Some(m.0))),
        }
}

/// The farcaster timestamps of the reactions of a hub response: that of each message of the
/// array at `messages`, up to the first whose timestamp writes no `i64`. A text that is no json
/// gives the error of a bad response holding the text; none where there is no array of
/// messages.
pub open spec fn pinata_reaction_timestamps(input: Seq<char>) -> Option<
    Result<Seq<i64>, Option<Seq<char>>>,
> {
    match json_list(input, "/messages"@, "/data/timestamp"@, "/data/castAddBody/type"@, "/data/fid"@) {
        None => Some(Err(Some(input))),
        Some((_, None)) => None,
        Some((_, Some(ms))) => read_each(ms, timestamp_reader()),
    }
}

/// The farcaster timestamps of the reactions of the hub response text `input`, as
/// [`pinata_reaction_timestamps`] states; none where there is no array of messages.
pub fn reaction_timestamps_from_pinata_text(input: &str) -> (r: Option<Result<Vec<i64>, ImporterError>>)
    ensures
        r is None <==> pinata_reaction_timestamps(input@) is None,
        r matches Some(Ok(v)) ==> pinata_reaction_timestamps(input@) == Some(
            Ok::<Seq<i64>, Option<Seq<char>>>(v@),
        ),
        r matches Some(Err(e)) ==> (pinata_reaction_timestamps(input@) matches Some(Err(f))
            && error_is(e, f)),
{
    let list = "/messages";
    let ts_at = "/data/timestamp";
    let type_at = "/data/castAddBody/type";
    let fid_at = "/data/fid";
    proof {
        assert(list@ == "/messages"@);
        assert(ts_at@ == "/data/timestamp"@);
        assert(type_at@ == "/data/castAddBody/type"@);
        assert(fid_at@ == "/data/fid"@);
    }
    let ghost j = json_list(input@, list@, ts_at@, type_at@, fid_at@);
    let records = match json_list_records(input, list, ts_at, type_at, fid_at) {
        None => {
            return Some(Err(ImporterError::BadApiResponse(String::from_str(input))));
        },
        Some((_, None)) => {
            return None;
        },
        Some((_, Some(records))) => records,
    };
    let ghost ms = j.unwrap().1.unwrap();
    let ghost f = timestamp_reader();
    let n = records.len();
    let mut stamps: Vec<i64> = Vec::new();
    let mut i: usize = 0;
    while i < n
        invariant
            n == records@.len(),
            n == ms.len(),
            f == timestamp_reader(),
            pinata_reaction_timestamps(input@) == read_each(ms, f),
            forall|k: int| 0 <= k < n ==> record_is_at(records@, ms, k),
            i <= n,
            read_each(ms.take(i as int), f) == Some(Ok::<Seq<i64>, Option<Seq<char>>>(stamps@)),
        decreases n - i,
    {
        proof {
            lemma_read_each_next(ms, f, i as int);
            assert(record_is_at(records@, ms, i as int));
        }
        let rec = &records[i];
        let ts = match &rec.1 {
            Some(t) => parse_i64(t.as_str()),
            None => None,
        };
        match ts {
            Some(ts) => {
                stamps.push(ts);
            },
            None => {
                proof {
                    lemma_read_each_stops(ms, f, i + 1);
                }
                return Some(Err(ImporterError::BadApiResponse(rec.0.clone())));
            },
        }
        i = i + 1;
    }
    proof {
        assert(ms.take(n as int) =~= ms);
    }
    Some(Ok(stamps))
}

} // verus!
