//! Spam label data read from local files, as the lines that a file held.
//!
//! The program reads a file of json lines and hands over, for each line, the parsed line
//! or an [`InvalidJsonlError`]; or nothing where the file could not be opened.
use crate::fetch::errors::{DataReadError, InvalidJsonlError, RetrieveError};
use crate::fidded::Fidded;
use crate::unprocessed_user_line::UnprocessedUserLine;
use crate::user_value::DatedSpamUpdate;
use vstd::prelude::*;

verus! {

/// Each line was read.
pub open spec fn all_lines_ok(lines: Seq<Result<UnprocessedUserLine, InvalidJsonlError>>) -> bool {
    forall|i: int| 0 <= i < lines.len() ==> (#[trigger] lines[i]) is Ok
}

/// `e` is the error of the first line that could not be read.
pub open spec fn is_first_line_error(
    lines: Seq<Result<UnprocessedUserLine, InvalidJsonlError>>,
    e: InvalidJsonlError,
) -> bool {
    exists|i: int|
        0 <= i < lines.len() && lines[i] == Err::<UnprocessedUserLine, InvalidJsonlError>(e) && (
        forall|j: int| 0 <= j < i ==> (#[trigger] lines[j]) is Ok)
}

/// The lines that were read, in order.
pub open spec fn ok_lines(lines: Seq<Result<UnprocessedUserLine, InvalidJsonlError>>) -> Seq<
    UnprocessedUserLine,
>
    decreases lines.len(),
{
    if lines.len() == 0 {
        Seq::empty()
    } else {
        let rest = ok_lines(lines.drop_last());
        match lines.last() {
            Ok(line) => rest.push(line),
            Err(_) => rest,
        }
    }
}

/// The lines read from the file at `path`: an [`DataReadError::InvalidDataPathError`] with
/// the path where the file could not be opened (`opened` is `None`), else the lines as
/// they were read.
pub fn import_data_from_file_with_collected_res(
    path: &str,
    opened: Option<Vec<Result<UnprocessedUserLine, InvalidJsonlError>>>,
) -> (r: Result<Vec<Result<UnprocessedUserLine, InvalidJsonlError>>, DataReadError>)
    ensures
        opened is None ==> (r matches Err(DataReadError::InvalidDataPathError { path: p })
            && p@ == path@),
        opened matches Some(lines) ==> r == Ok::<
            Vec<Result<UnprocessedUserLine, InvalidJsonlError>>,
            DataReadError,
        >(lines),
{
    match opened {
        Some(lines) => Ok(lines),
        None => Err(DataReadError::InvalidDataPathError { path: path.to_string() }),
    }
}

/// The lines of the file at `path`, all of them: an error where the file could not be
/// opened, or else the error of the first line that could not be read, if any.
pub fn import_data_from_file_with_res(
    path: &str,
    opened: Option<Vec<Result<UnprocessedUserLine, InvalidJsonlError>>>,
) -> (r: Result<Vec<UnprocessedUserLine>, DataReadError>)
    ensures
        opened is None ==> (r matches Err(DataReadError::InvalidDataPathError { path: p })
            && p@ == path@),
        opened matches Some(lines) ==> {
            &&& r is Ok <==> all_lines_ok(lines@)
            &&& r matches Ok(v) ==> v@.len() == lines@.len() && forall|i: int|
                0 <= i < v@.len() ==> lines@[i] == Ok::<UnprocessedUserLine, InvalidJsonlError>(
                    #[trigger] v@[i],
                )
            &&& r matches Err(err) ==> (err matches DataReadError::InvalidJsonlError(e)
                && is_first_line_error(lines@, e))
        },
{
    let ghost op = opened;
    let import_results = match import_data_from_file_with_collected_res(path, opened) {
        Ok(lines) => lines,
        Err(e) => {
            return Err(e);
        },
    };
    let ghost lines = import_results@;
    let mut result: Vec<UnprocessedUserLine> = Vec::new();
    for line in it: import_results
        invariant
            op is Some,
            op == opened,
            op->0@ == lines,
            lines == it.seq(),
            result@.len() == it.index(),
            forall|i: int|
                0 <= i < result@.len() ==> lines[i] == Ok::<
                    UnprocessedUserLine,
                    InvalidJsonlError,
                >(#[trigger] result@[i]),
    {
        match line {
            Ok(line) => result.push(line),
            Err(e) => {
                assert(lines[it.index() as int] == Err::<UnprocessedUserLine, InvalidJsonlError>(
                    e,
                ));
                assert(forall|j: int| 0 <= j < it.index() ==> (#[trigger] lines[j]) is Ok) by {
                    assert forall|j: int| 0 <= j < it.index() implies (#[trigger] lines[j]) is Ok by {
                        assert(lines[j] == Ok::<UnprocessedUserLine, InvalidJsonlError>(
                            result@[j],
                        ));
                    }
                }
                assert(!all_lines_ok(lines));
                return Err(DataReadError::InvalidJsonlError(e));
            },
        }
    }
    assert(all_lines_ok(lines)) by {
        assert forall|i: int| 0 <= i < lines.len() implies (#[trigger] lines[i]) is Ok by {
            assert(lines[i] == Ok::<UnprocessedUserLine, InvalidJsonlError>(result@[i]));
        }
    }
    Ok(result)
}

/// Each line that was read converts to a spam update.
pub open spec fn all_convert(lines: Seq<UnprocessedUserLine>) -> bool {
    forall|i: int| 0 <= i < lines.len() ==> (#[trigger] lines[i]).conversion_error() is None
}

/// The spam updates of the file at `path`: [`RetrieveError::CouldNotFetchData`] where the
/// file could not be opened; else the lines that were read (the others are passed over)
/// converted to spam updates, in order, or [`RetrieveError::InvalidFetchedData`] where one
/// of them does not convert.
pub fn import_data_from_file(
    path: &str,
    opened: Option<Vec<Result<UnprocessedUserLine, InvalidJsonlError>>>,
) -> (r: Result<Vec<Fidded<DatedSpamUpdate>>, RetrieveError>)
    ensures
        opened is None ==> r == Err::<Vec<Fidded<DatedSpamUpdate>>, RetrieveError>(
            RetrieveError::CouldNotFetchData,
        ),
        opened matches Some(lines) ==> {
            &&& r is Ok <==> all_convert(ok_lines(lines@))
            &&& r matches Ok(v) ==> v@.len() == ok_lines(lines@).len() && forall|i: int|
                0 <= i < v@.len() ==> ok_lines(lines@)[i].converts_to(#[trigger] v@[i])
            &&& r is Err ==> r == Err::<Vec<Fidded<DatedSpamUpdate>>, RetrieveError>(
                RetrieveError::InvalidFetchedData,
            )
        },
{
    let ghost op = opened;
    let import_result = match import_data_from_file_with_collected_res(path, opened) {
        Ok(lines) => lines,
        Err(_) => {
            return Err(RetrieveError::CouldNotFetchData);
        },
    };
    let ghost lines = import_result@;
    let mut result: Vec<Fidded<DatedSpamUpdate>> = Vec::new();
    for line in it: import_result
        invariant
            op is Some,
            op == opened,
            op->0@ == lines,
            lines == it.seq(),
            result@.len() == ok_lines(lines.take(it.index() as int)).len(),
            all_convert(ok_lines(lines.take(it.index() as int))),
            forall|i: int|
                0 <= i < result@.len() ==> ok_lines(lines.take(it.index() as int))[i].converts_to(
                    #[trigger] result@[i],
                ),
    {
        let ghost k = it.index() as int;
        proof {
            assert(lines.take(k + 1).drop_last() =~= lines.take(k));
            assert(lines.take(k + 1).last() == lines[k]);
        }
        match line {
            Ok(line) => {
                let ghost l = line;
                match Fidded::<DatedSpamUpdate>::try_from(line) {
                    Ok(update) => {
                        result.push(update);
                    },
                    Err(_) => {
                        proof {
                            lemma_ok_lines_prefix(lines, k + 1);
                            assert(ok_lines(lines.take(k + 1)).last() == l);
                            assert(!all_convert(ok_lines(lines)));
                        }
                        return Err(RetrieveError::InvalidFetchedData);
                    },
                }
            },
            Err(_) => {},
        }
    }
    proof {
        assert(lines.take(lines.len() as int) =~= lines);
    }
    Ok(result)
}

/// The lines read from a prefix of the input are a prefix of the lines read from all of it.
pub proof fn lemma_ok_lines_prefix(lines: Seq<Result<UnprocessedUserLine, InvalidJsonlError>>, k: int)
    requires
        0 <= k <= lines.len(),
    ensures
        ok_lines(lines.take(k)).len() <= ok_lines(lines).len(),
        forall|i: int|
            0 <= i < ok_lines(lines.take(k)).len() ==> ok_lines(lines)[i] == #[trigger] ok_lines(
                lines.take(k),
            )[i],
    decreases lines.len() - k,
{
    if k < lines.len() {
        lemma_ok_lines_prefix(lines, k + 1);
        assert(lines.take(k + 1).drop_last() =~= lines.take(k));
        assert forall|i: int| 0 <= i < ok_lines(lines.take(k)).len() implies ok_lines(lines)[i]
            == #[trigger] ok_lines(lines.take(k))[i] by {
            assert(ok_lines(lines.take(k + 1))[i] == ok_lines(lines.take(k))[i]);
        }
    } else {
        assert(lines.take(k) =~= lines);
    }
}

} // verus!
