//! Follower data fetched from the Wield api.
use crate::fetch::errors::ImporterError;
use crate::fetch::json_lists::{
    json_list, json_list_records, lemma_read_each_next, lemma_read_each_stops, parse_u64,
    read_each, u64_of_text, JsonRecord,
};
use crate::fetch::pinata_parser::record_is_at;
use vstd::prelude::*;
use vstd::string::StringExecFns;

verus! {

/// The fid of a user of a follower response, written as a string; the error of a bad response
/// holding the whole response `text` where it is no such string.
pub open spec fn wield_fid_reader(text: Seq<char>) -> spec_fn(JsonRecord) -> Option<
    Result<u64, Seq<char>>,
> {
    |m: JsonRecord|
        match m.2 {
            Some(s) => match u64_of_text(s) {
                Some(fid) => Some(Ok(fid)),
                None => Some(Err(text)),
            },
            None => Some(Err(text)),
        }
}

/// The followers of a Wield follower response: the fid of each user of the array at
/// `result.users`, a string that writes a `u64`. A text that is no json gives the error of a
/// bad response holding the text; a response without that array, or with a user without such a
/// fid, the error of a bad response holding the json text of the response.
pub open spec fn wield_followers(input: Seq<char>) -> Result<Seq<u64>, Seq<char>> {
    match json_list(input, "/result/users"@, "/fid"@, "/fid"@, "/fid"@) {
        None => Err(input),
        Some((text, None)) => Err(text),
        Some((text, Some(ms))) => match read_each(ms, wield_fid_reader(text)) {
            Some(Ok(fids)) => Ok(fids),
            Some(Err(e)) => Err(e),
            None => Err(text),
        },
    }
}

/// The followers of the Wield follower response text `input`, as [`wield_followers`] states.
pub fn followers_from_wield_text(input: &str) -> (r: Result<Vec<u64>, ImporterError>)
    ensures
        r matches Ok(v) ==> wield_followers(input@) == Ok::<Seq<u64>, Seq<char>>(v@),
        r matches Err(e) ==> (wield_followers(input@) matches Err(t) && e matches ImporterError::BadApiResponse(s) && s@ == t),
{
    let list = "/result/users";
    let fid_at = "/fid";
    proof {
        assert(list@ == "/result/users"@);
        assert(fid_at@ == "/fid"@);
    }
    let ghost j = json_list(input@, list@, fid_at@, fid_at@, fid_at@);
    let (text, records) = match json_list_records(input, list, fid_at, fid_at, fid_at) {
        None => {
            return Err(ImporterError::BadApiResponse(String::from_str(input)));
        },
        Some((text, None)) => {
            return Err(ImporterError::BadApiResponse(text));
        },
        Some((text, Some(records))) => (text, records),
    };
    let ghost ms = j.unwrap().1.unwrap();
    let ghost f = wield_fid_reader(text@);
    let n = records.len();
    let mut fids: Vec<u64> = Vec::new();
    let mut i: usize = 0;
    while i < n
        invariant
            n == records@.len(),
            n == ms.len(),
            f == wield_fid_reader(text@),
            wield_followers(input@) == match read_each(ms, f) {
                Some(Ok(fids)) => Ok(fids),
                Some(Err(e)) => Err(e),
                None => Err::<Seq<u64>, Seq<char>>(text@),
            },
            forall|k: int| 0 <= k < n ==> record_is_at(records@, ms, k),
            i <= n,
            read_each(ms.take(i as int), f) == Some(Ok::<Seq<u64>, Seq<char>>(fids@)),
        decreases n - i,
    {
        proof {
            lemma_read_each_next(ms, f, i as int);
            assert(record_is_at(records@, ms, i as int));
        }
        let rec = &records[i];
        let fid = match &rec.2 {
            Some(s) => parse_u64(s.as_str()),
            None => None,
        };
        match fid {
            Some(fid) => {
                fids.push(fid);
            },
            None => {
                proof {
                    lemma_read_each_stops(ms, f, i + 1);
                }
                return Err(ImporterError::BadApiResponse(text));
            },
        }
        i = i + 1;
    }
    proof {
        assert(ms.take(n as int) =~= ms);
    }
    Ok(fids)
}

} // verus!
