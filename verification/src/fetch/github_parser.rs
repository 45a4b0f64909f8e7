//! Spam label data fetched from the warpcast labels repository on GitHub.
use crate::fetch::errors::ImporterError;
use crate::fidded::Fidded;
use crate::unprocessed_user_line::UnprocessedUserLine;
use crate::user_value::DatedSpamUpdate;
use vstd::prelude::*;
use vstd::string::StrSliceExecFns;
use vstd::string::StringExecFns;

verus! {

/// The spam updates of `lines`, in order; each line must convert to a spam update.
pub fn into_fidded_user_value_iter(lines: Vec<UnprocessedUserLine>) -> (r: Vec<
    Fidded<DatedSpamUpdate>,
>)
    requires
        forall|i: int| 0 <= i < lines@.len() ==> (#[trigger] lines@[i]).conversion_error() is None,
    ensures
        r@.len() == lines@.len(),
        forall|i: int| 0 <= i < r@.len() ==> lines@[i].converts_to(#[trigger] r@[i]),
{
    let ghost input = lines@;
    let mut result: Vec<Fidded<DatedSpamUpdate>> = Vec::new();
    for line in it: lines
        invariant
            input == it.seq(),
            forall|i: int| 0 <= i < input.len() ==> (#[trigger] input[i]).conversion_error() is None,
            result@.len() == it.index(),
            forall|i: int| 0 <= i < result@.len() ==> input[i].converts_to(#[trigger] result@[i]),
    {
        let ghost l = line;
        assert(l == input[it.index() as int]);
        match Fidded::<DatedSpamUpdate>::try_from(line) {
            Ok(update) => result.push(update),
            Err(_) => {
                assert(false);
            },
        }
    }
    result
}

/// For a json text that is an array, the json text of field `key` of each element, where the
/// element is an object that has that field; what `serde_json` reads from `input`.
pub uninterp spec fn json_array_fields(input: Seq<char>, key: Seq<char>) -> Option<
    Seq<Option<Seq<char>>>,
>;

/// Reads `input` with `serde_json::from_str` into a `serde_json::Value`; where it is an array
/// (`as_array`), gives for each element the json text (`to_string`) of its field `key`
/// (`as_object`, then `get`), if it is an object with that field. The contract names the
/// result and states that it is converted element by element; what `serde_json` accepts as
/// json is not stated.
#[verifier::external_body]
fn array_fields(input: &str, key: &str) -> (r: Option<Vec<Option<String>>>)
    ensures
        r is Some <==> json_array_fields(input@, key@) is Some,
        r matches Some(v) ==> {
            let f = json_array_fields(input@, key@).unwrap();
            &&& v@.len() == f.len()
            &&& forall|i: int|
                0 <= i < v@.len() ==> (#[trigger] v@[i] is Some <==> f[i] is Some) && (v@[i] matches Some(
                    s,
                ) ==> s@ == f[i].unwrap())
        },
{
    match serde_json::from_str::<serde_json::Value>(input) {
        Ok(value) => value.as_array().map(
            |items| items.iter().map(|item| item.as_object().and_then(|o| o.get(key)).map(|x| x.to_string())).collect(),
        ),
        Err(_) => None,
    }
}

/// `s` without its double quotes.
pub open spec fn without_quotes(s: Seq<char>) -> Seq<char> {
    s.filter(|c: char| c != '"')
}

/// `s` without its double quotes.
fn strip_quotes(s: &str) -> (r: String)
    ensures
        r@ == without_quotes(s@),
{
    let n = s.unicode_len();
    let mut result = String::new();
    let mut i: usize = 0;
    while i < n
        invariant
            n == s@.len(),
            i <= n,
            result@ == without_quotes(s@.take(i as int)),
        decreases n - i,
    {
        let c = s.get_char(i);
        proof {
            reveal(Seq::filter);
            assert(s@.take(i + 1).drop_last() =~= s@.take(i as int));
            assert(s@.take(i + 1).last() == c);
        }
        if c != '"' {
            let piece = s.substring_char(i, i + 1);
            assert(piece@ =~= seq![c]);
            result.append(piece);
        }
        i = i + 1;
    }
    proof {
        assert(s@.take(n as int) =~= s@);
    }
    result
}

/// The commit hashes of a GitHub commit listing: the field `sha` of each element of the json
/// array `input`, without its double quotes. A listing that is not a json array, or with an
/// element that is no object with that field, gives [`ImporterError::BadApiResponse`] with
/// the listing.
pub fn parse_status(input: &str) -> (r: Result<Vec<String>, ImporterError>)
    ensures
        r is Ok <==> (json_array_fields(input@, "sha"@) matches Some(f) && forall|i: int|
            0 <= i < f.len() ==> (#[trigger] f[i]) is Some),
        r matches Ok(v) ==> {
            let f = json_array_fields(input@, "sha"@).unwrap();
            &&& v@.len() == f.len()
            &&& forall|i: int| 0 <= i < v@.len() ==> (#[trigger] v@[i])@ == without_quotes(f[i].unwrap())
        },
        r matches Err(e) ==> e matches ImporterError::BadApiResponse(s) && s@ == input@,
{
    let key = "sha";
    let fields = match array_fields(input, key) {
        Some(f) => f,
        None => {
            return Err(ImporterError::BadApiResponse(String::from_str(input)));
        },
    };
    let ghost f = json_array_fields(input@, key@);
    assert(key@ == "sha"@);
    let n = fields.len();
    let mut result: Vec<String> = Vec::new();
    let mut i: usize = 0;
    while i < n
        invariant
            f is Some,
            f == json_array_fields(input@, "sha"@),
            n == fields@.len(),
            n == f.unwrap().len(),
            forall|j: int|
                0 <= j < n ==> (#[trigger] fields@[j] is Some <==> f.unwrap()[j] is Some) && (
                fields@[j] matches Some(s) ==> s@ == f.unwrap()[j].unwrap()),
            i <= n,
            forall|j: int| 0 <= j < i ==> (#[trigger] f.unwrap()[j]) is Some,
            result@.len() == i,
            forall|j: int|
                0 <= j < i ==> (#[trigger] result@[j])@ == without_quotes(f.unwrap()[j].unwrap()),
        decreases n - i,
    {
        match &fields[i] {
            Some(s) => {
                result.push(strip_quotes(s.as_str()));
            },
            None => {
                assert(f.unwrap()[i as int] is None);
                return Err(ImporterError::BadApiResponse(String::from_str(input)));
            },
        }
        i = i + 1;
    }
    Ok(result)
}

/// The texts of `names`, in order.
pub open spec fn texts(names: Seq<String>) -> Seq<Seq<char>> {
    names.map_values(|s: String| s@)
}

/// Whether `names` holds a name with the text of `name`.
fn holds_name(names: &Vec<String>, name: &String) -> (r: bool)
    ensures
        r == texts(names@).contains(name@),
{
    let n = names.len();
    let mut i: usize = 0;
    while i < n
        invariant
            n == names@.len(),
            i <= n,
            forall|k: int| 0 <= k < i ==> names@[k]@ != name@,
        decreases n - i,
    {
        if names[i] == *name {
            assert(texts(names@)[i as int] == name@);
            return true;
        }
        i = i + 1;
    }
    proof {
        if texts(names@).contains(name@) {
            let k = choose|k: int| 0 <= k < n && texts(names@)[k] == name@;
            assert(names@[k]@ == name@);
        }
    }
    false
}

/// The commit hashes of `api_names` that `local_names` does not hold, each once: those whose
/// spam labels are still to be fetched.
pub fn missing_names(api_names: &Vec<String>, local_names: &Vec<String>) -> (r: Vec<String>)
    ensures
        texts(r@).no_duplicates(),
        forall|x: Seq<char>| #[trigger] texts(r@).contains(x) <==> (texts(api_names@).contains(x)
            && !texts(local_names@).contains(x)),
{
    let n = api_names.len();
    let mut result: Vec<String> = Vec::new();
    let mut i: usize = 0;
    while i < n
        invariant
            n == api_names@.len(),
            i <= n,
            texts(result@).no_duplicates(),
            forall|x: Seq<char>| #[trigger] texts(result@).contains(x) <==> (texts(
                api_names@.take(i as int),
            ).contains(x) && !texts(local_names@).contains(x)),
        decreases n - i,
    {
        let name = &api_names[i];
        let ghost before = result@;
        proof {
            assert(texts(api_names@.take(i + 1)) =~= texts(api_names@.take(i as int)).push(name@));
        }
        let in_local = holds_name(local_names, name);
        let in_result = holds_name(&result, name);
        if !in_local && !in_result {
            result.push(name.clone());
            proof {
                assert(texts(result@) =~= texts(before).push(name@));
                assert forall|a: int, b: int| 0 <= a < b < texts(result@).len() implies texts(result@)[a]
                    != texts(result@)[b] by {
                    if b == before.len() {
                        assert(texts(before)[a] == texts(result@)[a]);
                    }
                }
                assert forall|x: Seq<char>| #[trigger] texts(result@).contains(x) <==> (texts(
                    api_names@.take(i + 1),
                ).contains(x) && !texts(local_names@).contains(x)) by {
                    let t1 = texts(api_names@.take(i + 1));
                    let t0 = texts(api_names@.take(i as int));
                    if texts(result@).contains(x) {
                        let k = choose|k: int| 0 <= k < texts(result@).len() && texts(result@)[k] == x;
                        if k < before.len() {
                            assert(texts(before)[k] == x);
                            assert(texts(before).contains(x));
                            let k0 = choose|k0: int| 0 <= k0 < t0.len() && t0[k0] == x;
                            assert(t1[k0] == x);
                        } else {
                            assert(t1[i as int] == x);
                        }
                    }
                    if t1.contains(x) {
                        let k = choose|k: int| 0 <= k < t1.len() && t1[k] == x;
                        if k < t0.len() {
                            assert(t0[k] == x);
                        }
                    }
                    if texts(before).contains(x) {
                        let k = choose|k: int| 0 <= k < texts(before).len() && texts(before)[k] == x;
                        assert(texts(result@)[k] == x);
                    }
                    if x == name@ {
                        assert(texts(result@)[before.len() as int] == x);
                    }
                }
            }
        } else {
            proof {
                assert forall|x: Seq<char>| #[trigger] texts(result@).contains(x) <==> (texts(
                    api_names@.take(i + 1),
                ).contains(x) && !texts(local_names@).contains(x)) by {
                    let t1 = texts(api_names@.take(i + 1));
                    let t0 = texts(api_names@.take(i as int));
                    if t1.contains(x) {
                        let k = choose|k: int| 0 <= k < t1.len() && t1[k] == x;
                        if k < t0.len() {
                            assert(t0[k] == x);
                        }
                    }
                    if t0.contains(x) {
                        let k = choose|k: int| 0 <= k < t0.len() && t0[k] == x;
                        assert(t1[k] == x);
                    }
                    if x == name@ {
                        assert(t1[i as int] == x);
                    }
                }
            }
        }
        i = i + 1;
    }
    proof {
        assert(api_names@.take(n as int) =~= api_names@);
    }
    result
}

} // verus!
