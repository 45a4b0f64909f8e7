//! Lists of records read from json texts, the numbers written in them, and the outcome of
//! reading each record of a list in turn.
use vstd::prelude::*;

verus! {

/// The value of a decimal digit.
pub open spec fn digit_value(c: char) -> Option<int> {
    if '0' <= c && c <= '9' {
        Some(c as int - '0' as int)
    } else {
        None
    }
}

/// The number that the decimal digits `s` write; none where `s` is empty or holds another
/// character.
pub open spec fn digits_value(s: Seq<char>) -> Option<int>
    decreases s.len(),
{
    if s.len() == 0 {
        None
    } else {
        match digit_value(s.last()) {
            None => None,
            Some(d) => if s.len() == 1 {
                Some(d)
            } else {
                match digits_value(s.drop_last()) {
                    Some(p) => Some(p * 10 + d),
                    None => None,
                }
            },
        }
    }
}

/// The `i64` that `s` writes: an optional `+` or `-` sign, then decimal digits, with a value
/// that an `i64` holds.
pub open spec fn i64_of_text(s: Seq<char>) -> Option<i64> {
    let v = if s.len() > 0 && s[0] == '-' {
        match digits_value(s.skip(1)) {
            Some(x) => Some(-x),
            None => None,
        }
    } else if s.len() > 0 && s[0] == '+' {
        digits_value(s.skip(1))
    } else {
        digits_value(s)
    };
    match v {
        Some(x) => if i64::MIN <= x <= i64::MAX {
            Some(x as i64)
        } else {
            None
        },
        None => None,
    }
}

/// The `u64` that `s` writes: an optional `+` sign, then decimal digits, with a value that a
/// `u64` holds.
pub open spec fn u64_of_text(s: Seq<char>) -> Option<u64> {
    let v = if s.len() > 0 && s[0] == '+' {
        digits_value(s.skip(1))
    } else {
        digits_value(s)
    };
    match v {
        Some(x) => if 0 <= x <= u64::MAX {
            Some(x as u64)
        } else {
            None
        },
        None => None,
    }
}

/// The `i64` that `s` writes, if it writes one.
/// Calls `str::parse::<i64>`, which its documentation states takes an optional `+` or `-`
/// sign followed by decimal digits only, and fails where the value does not fit.
#[verifier::external_body]
pub(crate) fn parse_i64(s: &str) -> (r: Option<i64>)
    ensures
        r == i64_of_text(s@),
{
    s.parse::<i64>().ok()
}

/// The `u64` that `s` writes, if it writes one.
/// Calls `str::parse::<u64>`, which its documentation states takes an optional `+` sign
/// followed by decimal digits only, and fails where the value does not fit.
#[verifier::external_body]
pub(crate) fn parse_u64(s: &str) -> (r: Option<u64>)
    ensures
        r == u64_of_text(s@),
{
    s.parse::<u64>().ok()
}

/// A record of a json list: the json text of the element; the json text of its value at one
/// json pointer; its string at a second pointer; its unsigned number at a third. Each of the
/// last three is there only where the element has such a value.
pub type JsonRecord = (Seq<char>, Option<Seq<char>>, Option<Seq<char>>, Option<u64>);

/// What `serde_json` reads from the json text `input`: the json text of the whole value, and,
/// where the value at the json pointer `list` is an array, a record of each of its elements,
/// with the pointers `text_at`, `str_at` and `u64_at`; none where `input` is no json.
pub uninterp spec fn json_list(
    input: Seq<char>,
    list: Seq<char>,
    text_at: Seq<char>,
    str_at: Seq<char>,
    u64_at: Seq<char>,
) -> Option<(Seq<char>, Option<Seq<JsonRecord>>)>;

/// Whether the optional string `o` is `v`.
pub open spec fn opt_text_is(o: Option<String>, v: Option<Seq<char>>) -> bool {
    match o {
        Some(s) => v == Some(s@),
        None => v is None,
    }
}

/// Whether the record `r` read in strings is `v`.
pub open spec fn record_is(
    r: (String, Option<String>, Option<String>, Option<u64>),
    v: JsonRecord,
) -> bool {
    &&& r.0@ == v.0
    &&& opt_text_is(r.1, v.1)
    &&& opt_text_is(r.2, v.2)
    &&& r.3 == v.3
}

/// Reads `input` with `serde_json::from_str` into a `serde_json::Value`; gives its json text
/// (`to_string`) and, where its value at the pointer `list` (`pointer`) is an array
/// (`as_array`), for each element its json text, the json text of its value at `text_at`,
/// its string at `str_at` (`as_str`) and its number at `u64_at` (`as_u64`). The contract
/// names the result and states that it is converted element by element; what `serde_json`
/// reads as json, and the json text it writes, are not stated.
#[verifier::external_body]
pub(crate) fn json_list_records(
    input: &str,
    list: &str,
    text_at: &str,
    str_at: &str,
    u64_at: &str,
) -> (r: Option<(String, Option<Vec<(String, Option<String>, Option<String>, Option<u64>)>>)>)
    ensures
        r is Some <==> json_list(input@, list@, text_at@, str_at@, u64_at@) is Some,
        r matches Some(x) ==> {
            let j = json_list(input@, list@, text_at@, str_at@, u64_at@).unwrap();
            &&& x.0@ == j.0
            &&& x.1 is Some <==> j.1 is Some
            &&& x.1 matches Some(v) ==> v@.len() == j.1.unwrap().len() && forall|i: int|
                0 <= i < v@.len() ==> record_is(#[trigger] v@[i], j.1.unwrap()[i])
        },
{
    let json: serde_json::Value = serde_json::from_str(input).ok()?;
    let items = json.pointer(list).and_then(|v| v.as_array()).map(|items| {
        items.iter().map(|x| {
            let text = x.pointer(text_at).map(|t| t.to_string());
            let name = x.pointer(str_at).and_then(|s| s.as_str()).map(|s| s.to_string());
            (x.to_string(), text, name, x.pointer(u64_at).and_then(|n| n.as_u64()))
        }).collect()
    });
    Some((json.to_string(), items))
}

/// Reading the items `ms` in turn with `f`: the values read, in order, until the first item
/// that `f` fails on (its error) or cannot read at all (none).
pub open spec fn read_each<M, T, E>(ms: Seq<M>, f: spec_fn(M) -> Option<Result<T, E>>) -> Option<
    Result<Seq<T>, E>,
>
    decreases ms.len(),
{
    if ms.len() == 0 {
        Some(Ok(Seq::empty()))
    } else {
        match read_each(ms.drop_last(), f) {
            Some(Ok(ts)) => match f(ms.last()) {
                Some(Ok(t)) => Some(Ok(ts.push(t))),
                Some(Err(e)) => Some(Err(e)),
                None => None,
            },
            other => other,
        }
    }
}

/// Once reading the first `k` items stops, reading all of them stops there too.
pub proof fn lemma_read_each_stops<M, T, E>(
    ms: Seq<M>,
    f: spec_fn(M) -> Option<Result<T, E>>,
    k: int,
)
    requires
        0 <= k <= ms.len(),
        !(read_each(ms.take(k), f) matches Some(Ok(_))),
    ensures
        read_each(ms, f) == read_each(ms.take(k), f),
    decreases ms.len(),
{
    if k < ms.len() {
        assert(ms.drop_last().take(k) =~= ms.take(k));
        lemma_read_each_stops(ms.drop_last(), f, k);
    } else {
        assert(ms.take(k) =~= ms);
    }
}

/// Reading one more item extends the reading of those before it.
pub proof fn lemma_read_each_next<M, T, E>(
    ms: Seq<M>,
    f: spec_fn(M) -> Option<Result<T, E>>,
    k: int,
)
    requires
        0 <= k < ms.len(),
    ensures
        read_each(ms.take(k + 1), f) == match read_each(ms.take(k), f) {
            Some(Ok(ts)) => match f(ms[k]) {
                Some(Ok(t)) => Some(Ok(ts.push(t))),
                Some(Err(e)) => Some(Err(e)),
                None => None,
            },
            other => other,
        },
{
    assert(ms.take(k + 1).drop_last() =~= ms.take(k));
    assert(ms.take(k + 1).last() == ms[k]);
}

} // verus!
