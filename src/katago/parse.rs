//! Turning single lines of the engine's board dump into values.
use vstd::prelude::*;
use crate::board::Color;
use crate::katago::Error;
use crate::text::{
    chars_of, decimal_within, digits_value, has_prefix, parse_digits, same_chars, split_words,
    starts_with, views, words,
};

verus! {

/// The value of a non-negative integer token: an optional `+`, then one or
/// more decimal digits whose value fits in a `u32`.
pub open spec fn u32_token(t: Seq<char>) -> Option<u32> {
    let start: int = if t.len() > 0 && t[0] == '+' {
        1
    } else {
        0
    };
    let d = t.subrange(start, t.len() as int);
    if decimal_within(d, u32::MAX as nat) {
        Some(digits_value(d) as u32)
    } else {
        None
    }
}

fn parse_u32(t: &Vec<char>) -> (r: Option<u32>)
    ensures
        r == u32_token(t@),
{
    let start: usize = if t.len() > 0 && t[0] == '+' {
        1
    } else {
        0
    };
    match parse_digits(t, start, u32::MAX as u128) {
        Some(v) => Some(v as u32),
        None => None,
    }
}

/// The move number in the header line `= MoveNum: <n> ...`.
pub open spec fn move_num_result(line: Seq<char>) -> Result<u32, Error> {
    let w = words(line);
    if starts_with(line, "= MoveNum: "@) && w.len() >= 3 && u32_token(w[2]) is Some {
        Ok(u32_token(w[2])->0)
    } else {
        Err(Error::InvalidTextProtocol)
    }
}

/// The stone that a marker character shows: `X` black, `O` white.
pub open spec fn marker(c: char) -> Option<Color> {
    if c == 'X' {
        Some(Color::Black)
    } else if c == 'O' {
        Some(Color::White)
    } else {
        None
    }
}

/// The character offset of the marker of column `i` in a row line.
pub open spec fn marker_offset(i: int) -> int {
    3 + 2 * i
}

/// A row line is long enough to hold the markers of `n` columns.
pub open spec fn row_fits(line: Seq<char>, n: nat) -> bool {
    n == 0 || marker_offset(n - 1) < line.len()
}

/// The stones of the `n` columns of a row line, column 0 first.
pub open spec fn row_markers(line: Seq<char>, n: nat) -> Seq<Option<Color>> {
    Seq::new(n, |i: int| marker(line[marker_offset(i)]))
}

/// The colour named in the line `Next player: <colour>`.
pub open spec fn next_move_result(line: Seq<char>) -> Result<Color, Error> {
    let w = words(line);
    if starts_with(line, "Next player:"@) && w.len() >= 3 && w[2] == "Black"@ {
        Ok(Color::Black)
    } else if starts_with(line, "Next player:"@) && w.len() >= 3 && w[2] == "White"@ {
        Ok(Color::White)
    } else {
        Err(Error::InvalidTextProtocol)
    }
}

/// The count in the line `<tag> stones captured: <n>`.
pub open spec fn captured_result(line: Seq<char>, tag: Seq<char>) -> Result<u32, Error> {
    let w = words(line);
    if !starts_with(line, tag + " stones captured:"@) || w.len() < 4 {
        Err(Error::InvalidTextProtocol)
    } else {
        match u32_token(w[3]) {
            Some(v) => Ok(v),
            None => Err(Error::ParseIntError),
        }
    }
}

pub(crate) fn move_num_of(line: &Vec<char>) -> (r: Result<u32, Error>)
    ensures
        r == move_num_result(line@),
{
    let prefix = chars_of("= MoveNum: ");
    if !has_prefix(line, &prefix) {
        return Err(Error::InvalidTextProtocol);
    }
    let words = split_words(line);
    if words.len() < 3 {
        return Err(Error::InvalidTextProtocol);
    }
    assert(views(words@)[2] == words@[2]@);
    match parse_u32(&words[2]) {
        Some(v) => Ok(v),
        None => Err(Error::InvalidTextProtocol),
    }
}

/// The move number in the header line of the board dump.
pub fn move_num(line: &str) -> (r: Result<u32, Error>)
    ensures
        r == move_num_result(line@),
{
    move_num_of(&chars_of(line))
}

pub(crate) fn board_line_of(line: &Vec<char>, board_size: usize) -> (r: Result<
    Vec<Option<Color>>,
    Error,
>)
    ensures
        row_fits(line@, board_size as nat) ==> r is Ok && r->Ok_0@ == row_markers(
            line@,
            board_size as nat,
        ),
        !row_fits(line@, board_size as nat) ==> r is Err && r->Err_0
            == Error::InvalidTextProtocol,
{
    let mut out: Vec<Option<Color>> = Vec::new();
    let mut i: usize = 0;
    while i < board_size
        invariant
            0 <= i <= board_size,
            out@ == row_markers(line@, i as nat),
            i > 0 ==> marker_offset(i - 1) < line@.len(),
        decreases board_size - i,
    {
        if 3 + 2 * (i as u128) >= line.len() as u128 {
            return Err(Error::InvalidTextProtocol);
        }
        let c = line[3 + 2 * i];
        let m = if c == 'X' {
            Some(Color::Black)
        } else if c == 'O' {
            Some(Color::White)
        } else {
            None
        };
        out.push(m);
        i += 1;
        assert(out@ =~= row_markers(line@, i as nat));
    }
    Ok(out)
}

/// The stones of a row line of the board dump, column 0 first: for column
/// `i` the marker at character offset `3 + 2 * i`.
pub fn board_line(line: &str, board_size: usize) -> (r: Result<Vec<Option<Color>>, Error>)
    ensures
        row_fits(line@, board_size as nat) ==> r is Ok && r->Ok_0@ == row_markers(
            line@,
            board_size as nat,
        ),
        !row_fits(line@, board_size as nat) ==> r is Err && r->Err_0
            == Error::InvalidTextProtocol,
{
    board_line_of(&chars_of(line), board_size)
}

pub(crate) fn next_move_of(line: &Vec<char>) -> (r: Result<Color, Error>)
    ensures
        r == next_move_result(line@),
{
    let prefix = chars_of("Next player:");
    if !has_prefix(line, &prefix) {
        return Err(Error::InvalidTextProtocol);
    }
    let words = split_words(line);
    if words.len() < 3 {
        return Err(Error::InvalidTextProtocol);
    }
    assert(views(words@)[2] == words@[2]@);
    if same_chars(&words[2], &chars_of("Black")) {
        return Ok(Color::Black);
    }
    if same_chars(&words[2], &chars_of("White")) {
        return Ok(Color::White);
    }
    Err(Error::InvalidTextProtocol)
}

/// The colour to move, from the line `Next player: <colour>`.
pub fn next_move(line: &str) -> (r: Result<Color, Error>)
    ensures
        r == next_move_result(line@),
{
    next_move_of(&chars_of(line))
}

fn stones_captured(line: &Vec<char>, tag: &str) -> (r: Result<u32, Error>)
    ensures
        r == captured_result(line@, tag@),
{
    let mut prefix = chars_of(tag);
    let mut rest = chars_of(" stones captured:");
    prefix.append(&mut rest);
    if !has_prefix(line, &prefix) {
        return Err(Error::InvalidTextProtocol);
    }
    let words = split_words(line);
    if words.len() < 4 {
        return Err(Error::InvalidTextProtocol);
    }
    assert(views(words@)[3] == words@[3]@);
    match parse_u32(&words[3]) {
        Some(v) => Ok(v),
        None => Err(Error::ParseIntError),
    }
}

pub(crate) fn black_captured_of(line: &Vec<char>) -> (r: Result<u32, Error>)
    ensures
        r == captured_result(line@, "B"@),
{
    stones_captured(line, "B")
}

pub(crate) fn white_captured_of(line: &Vec<char>) -> (r: Result<u32, Error>)
    ensures
        r == captured_result(line@, "W"@),
{
    stones_captured(line, "W")
}

/// The number of black stones captured, from `B stones captured: <n>`.
pub fn black_captured(line: &str) -> (r: Result<u32, Error>)
    ensures
        r == captured_result(line@, "B"@),
{
    black_captured_of(&chars_of(line))
}

/// The number of white stones captured, from `W stones captured: <n>`.
pub fn white_captured(line: &str) -> (r: Result<u32, Error>)
    ensures
        r == captured_result(line@, "W"@),
{
    white_captured_of(&chars_of(line))
}

} // verus!
