//! Time ranges as an upload writes them: `HH:MM-HH:MM`, with white space anywhere.

use crate::api::ApiError;
use crate::text::{integer, is_whitespace, parse_integer, white_space};
use vstd::prelude::*;

verus! {

/// The start and the end of a time range, each as hour and minute.
#[derive(Debug, Clone, Copy, PartialEq, Eq)]
pub struct Times {
    pub start_hour: i32,
    pub start_minute: i32,
    pub end_hour: i32,
    pub end_minute: i32,
}

/// The text does not hold exactly one `-`.
pub const NOT_A_RANGE: &'static str =
    "Unexpected time range, your time ranges are not in the format: HH:MM-HH:MM. You potentially have an aditional \"-\"";

/// A piece of the text is no integer.
pub const NOT_AN_INTEGER: &'static str =
    "Error in time range, unable to convert to an integer. Please check that you are sending in the format \"HH:MM-HH:MM\"";

/// The text does not hold four integers.
pub const NOT_FOUR: &'static str =
    "Unexpected time range, your time ranges are not in the format: \"HH:MM-HH:MM\". You potentially have an additional : lingering somewhere.";

/// The start hour is 24 or more.
pub const BAD_START_HOUR: &'static str = "You have a malformed starting hour, please fix this, HH <= 23";

/// The end hour is 0, or more than 24.
pub const BAD_END_HOUR: &'static str = "You have a malformed end hour, please fix this, 0 < HH <= 24";

/// The start minute is 60 or more.
pub const BAD_START_MINUTE: &'static str =
    "You have a malformed start minute, please fix this, MM <= 59";

/// The end minute is 60 or more.
pub const BAD_END_MINUTE: &'static str = "You have a malformed end minute, please fix this, MM <= 59";

/// The text without its white space.
pub open spec fn stripped(text: Seq<char>) -> Seq<char>
    decreases text.len(),
{
    if text.len() == 0 {
        Seq::empty()
    } else if white_space(text.last()) {
        stripped(text.drop_last())
    } else {
        stripped(text.drop_last()).push(text.last())
    }
}

/// How often `-` stands in the text.
pub open spec fn dashes(text: Seq<char>) -> int
    decreases text.len(),
{
    if text.len() == 0 {
        0
    } else if text.last() == '-' {
        dashes(text.drop_last()) + 1
    } else {
        dashes(text.drop_last())
    }
}

/// The character parts one piece from the next.
pub open spec fn is_mark(c: char) -> bool {
    c == '-' || c == ':'
}

/// The pieces of the text between its marks, in order. A text with `n` marks
/// has `n + 1` pieces, some of which may be empty.
pub open spec fn pieces(text: Seq<char>) -> Seq<Seq<char>>
    decreases text.len(),
{
    if text.len() == 0 {
        seq![Seq::empty()]
    } else {
        let before = pieces(text.drop_last());
        if is_mark(text.last()) {
            before.push(Seq::empty())
        } else {
            before.update(before.len() - 1, before.last().push(text.last()))
        }
    }
}

/// Every piece writes an integer.
pub open spec fn all_integers(parts: Seq<Seq<char>>) -> bool {
    forall|k: int| 0 <= k < parts.len() ==> integer(#[trigger] parts[k]).is_some()
}

/// What the four integers of a range mean: the range, or what is wrong with it.
pub open spec fn checked(times: Times) -> Result<Times, ApiError<'static>> {
    if times.start_hour >= 24 {
        Err(ApiError::ScraperUploadError(BAD_START_HOUR))
    } else if times.end_hour > 24 || times.end_hour == 0 {
        Err(ApiError::ScraperUploadError(BAD_END_HOUR))
    } else if times.start_minute >= 60 {
        Err(ApiError::ScraperUploadError(BAD_START_MINUTE))
    } else if times.end_minute >= 60 {
        Err(ApiError::ScraperUploadError(BAD_END_MINUTE))
    } else {
        Ok(times)
    }
}

/// What a text means as a time range.
///
/// White space does not count. The text must hold exactly one `-`; its pieces
/// between `:` and `-` must each write an integer, and there must be four of
/// them: start hour, start minute, end hour, end minute. The start hour must
/// be below 24, the end hour from 1 to 24, each minute below 60.
pub open spec fn time_range(text: Seq<char>) -> Result<Times, ApiError<'static>> {
    let bare = stripped(text);
    let parts = pieces(bare);
    if dashes(bare) != 1 {
        Err(ApiError::ScraperUploadError(NOT_A_RANGE))
    } else if !all_integers(parts) {
        Err(ApiError::ScraperUploadError(NOT_AN_INTEGER))
    } else if parts.len() != 4 {
        Err(ApiError::ScraperUploadError(NOT_FOUR))
    } else {
        checked(
            Times {
                start_hour: integer(parts[0]).unwrap(),
                start_minute: integer(parts[1]).unwrap(),
                end_hour: integer(parts[2]).unwrap(),
                end_minute: integer(parts[3]).unwrap(),
            },
        )
    }
}

/// Reads a time range of the form `HH:MM-HH:MM`.
pub fn convert_to_ints(time_range: &str) -> (times: Result<Times, ApiError<'static>>)
    ensures
        times == self::time_range(time_range@),
{
    let mut bare: Vec<char> = Vec::new();
    let mut dash_count: usize = 0;
    for c in it: time_range.chars()
        invariant
            it.seq() == time_range@,
            bare@ == stripped(time_range@.take(it.index() as int)),
            dash_count == dashes(bare@),
            dash_count <= bare@.len(),
    {
        assert(time_range@.take(it.index() + 1).drop_last() =~= time_range@.take(it.index() as int));
        if !is_whitespace(c) {
            let ghost old_bare = bare@;
            bare.push(c);
            assert(bare@.drop_last() =~= old_bare);
            let size: usize = bare.len();
            if c == '-' {
                assert(dash_count < size);
                dash_count += 1;
            }
        }
    }
    assert(time_range@.take(time_range@.len() as int) =~= time_range@);
    if dash_count != 1 {
        return Err(ApiError::ScraperUploadError(NOT_A_RANGE));
    }
    let ghost mut done: Seq<Seq<char>> = Seq::empty();
    let mut integer_times: Vec<i32> = Vec::new();
    let mut piece: Vec<char> = Vec::new();
    let mut i: usize = 0;
    while i < bare.len()
        invariant
            i <= bare@.len(),
            bare@ == stripped(time_range@),
            dashes(bare@) == 1,
            pieces(bare@.take(i as int)) == done.push(piece@),
            integer_times@.len() == done.len(),
            forall|k: int| 0 <= k < done.len() ==> integer(#[trigger] done[k]) == Some(integer_times@[k]),
        decreases bare@.len() - i,
    {
        assert(bare@.take(i + 1).drop_last() =~= bare@.take(i as int));
        let c: char = bare[i];
        if c == '-' || c == ':' {
            match parse_integer(&piece) {
                Some(number) => {
                    integer_times.push(number);
                },
                None => {
                    proof {
                        lemma_pieces_stay(bare@, i as int, done.len() as int);
                        assert(pieces(bare@)[done.len() as int] == piece@);
                        assert(integer(pieces(bare@)[done.len() as int]).is_none());
                    }
                    return Err(ApiError::ScraperUploadError(NOT_AN_INTEGER));
                },
            }
            proof {
                done = done.push(piece@);
            }
            piece = Vec::new();
        } else {
            let ghost old_piece = piece@;
            piece.push(c);
            assert(done.push(old_piece).update(done.len() as int, old_piece.push(c)) =~= done.push(
                piece@,
            ));
        }
        i += 1;
    }
    assert(bare@.take(bare@.len() as int) =~= bare@);
    match parse_integer(&piece) {
        Some(number) => {
            integer_times.push(number);
        },
        None => {
            assert(integer(pieces(bare@)[done.len() as int]).is_none());
            return Err(ApiError::ScraperUploadError(NOT_AN_INTEGER));
        },
    }
    proof {
        done = done.push(piece@);
    }
    assert(pieces(bare@) == done);
    if integer_times.len() != 4 {
        return Err(ApiError::ScraperUploadError(NOT_FOUR));
    }
    let potential_times = Times {
        start_hour: integer_times[0],
        start_minute: integer_times[1],
        end_hour: integer_times[2],
        end_minute: integer_times[3],
    };
    if potential_times.start_hour >= 24 {
        Err(ApiError::ScraperUploadError(BAD_START_HOUR))
    } else if potential_times.end_hour > 24 || potential_times.end_hour == 0 {
        Err(ApiError::ScraperUploadError(BAD_END_HOUR))
    } else if potential_times.start_minute >= 60 {
        Err(ApiError::ScraperUploadError(BAD_START_MINUTE))
    } else if potential_times.end_minute >= 60 {
        Err(ApiError::ScraperUploadError(BAD_END_MINUTE))
    } else {
        Ok(potential_times)
    }
}

/// A piece that a mark has closed stays as it is, whatever follows.
proof fn lemma_pieces_stay(text: Seq<char>, upto: int, at: int)
    requires
        0 <= upto < text.len(),
        is_mark(text[upto]),
        at == pieces(text.take(upto)).len() - 1,
    ensures
        at < pieces(text).len(),
        pieces(text)[at] == pieces(text.take(upto))[at],
{
    assert(text.take(upto + 1).drop_last() =~= text.take(upto));
    lemma_pieces_len(text.take(upto));
    lemma_pieces_grow(text, upto + 1, at);
}

/// A text has one piece at least.
proof fn lemma_pieces_len(text: Seq<char>)
    ensures
        pieces(text).len() >= 1,
    decreases text.len(),
{
    if text.len() > 0 {
        lemma_pieces_len(text.drop_last());
    }
}

/// Once the text up to `upto` has more than `at + 1` pieces, piece `at` is final.
proof fn lemma_pieces_grow(text: Seq<char>, upto: int, at: int)
    requires
        0 <= upto <= text.len(),
        0 <= at < pieces(text.take(upto)).len() - 1,
    ensures
        at < pieces(text).len() - 1,
        pieces(text)[at] == pieces(text.take(upto))[at],
    decreases text.len() - upto,
{
    if upto < text.len() {
        assert(text.take(upto + 1).drop_last() =~= text.take(upto));
        lemma_pieces_len(text.take(upto));
        lemma_pieces_grow(text, upto + 1, at);
    } else {
        assert(text.take(upto) =~= text);
    }
}

} // verus!
