//! Talking to a Go engine over its line-based text protocol: the errors, the
//! engine's reported game state, and the decisions around each command. The
//! process and its pipes are driven from outside this library, which hands
//! the lines it reads to the functions here.
use vstd::prelude::*;
use vstd::string::*;
use crate::board::{
    board_text, color_name, has_letter, parse_position, position_text, Board, Cell, Color,
    ParsePositionError, Position,
};
use crate::katago::parse::{
    black_captured_of, board_line_of, captured_result, move_num_of, move_num_result,
    next_move_of, next_move_result, row_fits, row_markers, white_captured_of,
};
use crate::text::{
    chars_of, decimal_text, has_prefix, lines, push_char, push_decimal, split_lines, starts_with,
    views,
};

pub mod parse;

verus! {

/// Relies on `std::io::Error` as an opaque value carried inside `Error::Io`.
#[verifier::external_type_specification]
#[verifier::external_body]
pub struct ExIoError(std::io::Error);

/// What can go wrong when driving the engine.
#[derive(Debug)]
pub enum Error {
    /// A pipe was missing, or reading or writing failed.
    Io(std::io::Error),
    /// A response did not have the expected shape, length or prefix.
    InvalidTextProtocol,
    /// A count in a response was not a number.
    ParseIntError,
    /// A move in a response was not coordinate text.
    ParsePositionError,
    /// The engine refused the command; the response text, as given.
    UnknownError(String),
}

impl From<std::io::Error> for Error {
    fn from(e: std::io::Error) -> Error {
        Error::Io(e)
    }
}

impl vstd::std_specs::convert::FromSpecImpl<std::io::Error> for Error {
    open spec fn obeys_from_spec() -> bool {
        true
    }

    open spec fn from_spec(e: std::io::Error) -> Error {
        Error::Io(e)
    }
}

impl From<ParsePositionError> for Error {
    fn from(_e: ParsePositionError) -> Error {
        Error::ParsePositionError
    }
}

impl vstd::std_specs::convert::FromSpecImpl<ParsePositionError> for Error {
    open spec fn obeys_from_spec() -> bool {
        true
    }

    open spec fn from_spec(_e: ParsePositionError) -> Error {
        Error::ParsePositionError
    }
}

/// The engine's game state as its board dump reports it.
pub struct State {
    pub board: Board,
    pub move_num: u32,
    pub next_move: Color,
    pub black_captured: u32,
    pub white_captured: u32,
}

/// A response that starts with `?`: the engine refused the command.
pub open spec fn is_rejection(text: Seq<char>) -> bool {
    text.len() > 0 && text[0] == '?'
}

/// The error for a refused command, carrying the response text.
pub open spec fn is_rejection_of(e: Error, text: Seq<char>) -> bool {
    match e {
        Error::UnknownError(s) => s@ == text,
        _ => false,
    }
}

/// The board dump of side `n` has at least one row line too short for its
/// markers.
pub open spec fn some_row_short(ls: Seq<Seq<char>>, n: nat) -> bool {
    exists|li: int| 0 <= li < n && !row_fits(#[trigger] ls[2 + li], n)
}

/// The first failure in reading a board dump of side `n` from its lines,
/// taken in this order: the row lines, the move number, the next player,
/// the black captures, the white captures.
pub open spec fn dump_error(ls: Seq<Seq<char>>, n: nat) -> Option<Error> {
    if some_row_short(ls, n) {
        Some(Error::InvalidTextProtocol)
    } else if move_num_result(ls[0]) is Err {
        Some(move_num_result(ls[0])->Err_0)
    } else if next_move_result(ls[n as int + 2]) is Err {
        Some(next_move_result(ls[n as int + 2])->Err_0)
    } else if captured_result(ls[n as int + 4], "B"@) is Err {
        Some(captured_result(ls[n as int + 4], "B"@)->Err_0)
    } else if captured_result(ls[n as int + 5], "W"@) is Err {
        Some(captured_result(ls[n as int + 5], "W"@)->Err_0)
    } else {
        None
    }
}

/// `st` holds what the lines of a board dump of side `n` report. Line `li`
/// of the rows (line `2 + li` of the dump) is board row `n - 1 - li`: the
/// engine prints the highest row first, and row 0 is the bottom one.
pub open spec fn state_reports(st: &State, ls: Seq<Seq<char>>, n: nat) -> bool {
    &&& st.board.wf()
    &&& st.board.side() == n
    &&& forall|x: int, y: int|
        0 <= x < n && 0 <= y < n ==> #[trigger] st.board.cell_at(x, y) == row_markers(
            ls[2 + (n - 1 - y)],
            n,
        )[x]
    &&& move_num_result(ls[0]) == Ok::<u32, Error>(st.move_num)
    &&& next_move_result(ls[n as int + 2]) == Ok::<Color, Error>(st.next_move)
    &&& captured_result(ls[n as int + 4], "B"@) == Ok::<u32, Error>(st.black_captured)
    &&& captured_result(ls[n as int + 5], "W"@) == Ok::<u32, Error>(st.white_captured)
}

/// Whether a response is the engine refusing the command.
pub fn is_rejected(answer: &str) -> (r: bool)
    ensures
        r == is_rejection(answer@),
{
    let n = answer.unicode_len();
    n > 0 && answer.get_char(0) == '?'
}

/// The game state that the response to `showboard` reports, for a board of
/// side `board_size`. The dump is: the move-number header, a line of column
/// letters, one line per row from the highest down, the next player, one
/// more line, then the black and the white capture counts.
pub fn state_from_response(answer: &str, board_size: usize) -> (r: Result<State, Error>)
    requires
        board_size * board_size <= usize::MAX,
    ensures
        is_rejection(answer@) ==> r is Err && is_rejection_of(r->Err_0, answer@),
        !is_rejection(answer@) && lines(answer@).len() < board_size + 6 ==> r == Err::<
            State,
            Error,
        >(Error::InvalidTextProtocol),
        !is_rejection(answer@) && lines(answer@).len() >= board_size + 6 ==> match dump_error(
            lines(answer@),
            board_size as nat,
        ) {
            Some(e) => r == Err::<State, Error>(e),
            None => r is Ok && state_reports(&r->Ok_0, lines(answer@), board_size as nat),
        },
{
    if is_rejected(answer) {
        return Err(Error::UnknownError(String::from_str(answer)));
    }
    let cs = chars_of(answer);
    let ls = split_lines(&cs);
    let ghost lv = lines(answer@);
    let n = board_size;
    if ls.len() < 6 || ls.len() - 6 < n {
        return Err(Error::InvalidTextProtocol);
    }
    let mut board = Board::new_with_size(n);
    let mut li: usize = 0;
    while li < n
        invariant
            n == board_size,
            !is_rejection(answer@),
            lv == lines(answer@),
            views(ls@) == lv,
            lv.len() >= n + 6,
            n * n <= usize::MAX,
            board.wf(),
            board.side() == n,
            0 <= li <= n,
            forall|k: int| 0 <= k < li ==> row_fits(#[trigger] lv[2 + k], n as nat),
            forall|x: int, y: int|
                0 <= x < n && 0 <= y < n ==> #[trigger] board.cell_at(x, y) == if y >= n - li {
                    row_markers(lv[2 + (n - 1 - y)], n as nat)[x]
                } else {
                    None
                },
        decreases n - li,
    {
        assert(views(ls@)[2 + li] == ls@[2 + li]@);
        let row = match board_line_of(&ls[2 + li], n) {
            Ok(row) => row,
            Err(e) => {
                assert(!row_fits(lv[2 + li], n as nat));
                assert(some_row_short(lv, n as nat));
                assert(e == Error::InvalidTextProtocol);
                return Err(e);
            },
        };
        let y = n - li - 1;
        let ghost before = board;
        let mut x: usize = 0;
        while x < n
            invariant
                row@ == row_markers(lv[2 + li], n as nat),
                lv.len() >= n + 6,
                n * n <= usize::MAX,
                board.wf(),
                board.side() == n,
                y == n - li - 1,
                0 <= li < n,
                0 <= x <= n,
                before.side() == n,
                forall|x1: int, y1: int|
                    0 <= x1 < n && 0 <= y1 < n ==> #[trigger] board.cell_at(x1, y1) == if y1
                        == y && x1 < x {
                        row@[x1]
                    } else {
                        before.cell_at(x1, y1)
                    },
            decreases n - x,
        {
            let cell = match row[x] {
                Some(c) => Cell::from(c),
                None => Cell::empty(),
            };
            let _ = board.set(Position::new(x, y), cell);
            x += 1;
        }
        li += 1;
    }
    assert(!some_row_short(lv, n as nat));
    assert(views(ls@)[0] == ls@[0]@);
    assert(views(ls@)[n + 2] == ls@[n + 2]@);
    assert(views(ls@)[n + 4] == ls@[n + 4]@);
    assert(views(ls@)[n + 5] == ls@[n + 5]@);
    let move_num = match move_num_of(&ls[0]) {
        Ok(v) => v,
        Err(e) => {
            return Err(e);
        },
    };
    let next_move = match next_move_of(&ls[n + 2]) {
        Ok(c) => c,
        Err(e) => {
            return Err(e);
        },
    };
    let black_captured = match black_captured_of(&ls[n + 4]) {
        Ok(v) => v,
        Err(e) => {
            return Err(e);
        },
    };
    let white_captured = match white_captured_of(&ls[n + 5]) {
        Ok(v) => v,
        Err(e) => {
            return Err(e);
        },
    };
    Ok(
        State {
            board: board,
            move_num: move_num,
            next_move: next_move,
            black_captured: black_captured,
            white_captured: white_captured,
        },
    )
}

/// The command that asks for the board dump.
pub fn showboard_command() -> (r: String)
    ensures
        r@ == "showboard"@,
{
    String::from_str("showboard")
}

/// The command that places a stone: `play <colour> <coordinate>`.
pub fn play_command(color: Color, pos: Position) -> (r: String)
    requires
        has_letter(pos.x as nat),
    ensures
        r@ == "play "@ + color_name(color) + " "@ + position_text(pos),
{
    let mut r = String::from_str("play ");
    let name = color.to_text();
    r.append(name.as_str());
    r.append(" ");
    let coord = pos.to_text();
    r.append(coord.as_str());
    r
}

/// The command that asks the engine for a move: `genmove <colour>`.
pub fn genmove_command(color: Color) -> (r: String)
    ensures
        r@ == "genmove "@ + color_name(color),
{
    let mut r = String::from_str("genmove ");
    let name = color.to_text();
    r.append(name.as_str());
    r
}

/// The outcome of a `play` command from its response: refused when the
/// response starts with `?`, done otherwise.
pub fn play_outcome(answer: &str) -> (r: Result<(), Error>)
    ensures
        is_rejection(answer@) ==> r is Err && is_rejection_of(r->Err_0, answer@),
        !is_rejection(answer@) ==> r is Ok,
{
    if is_rejected(answer) {
        return Err(Error::UnknownError(String::from_str(answer)));
    }
    Ok(())
}

/// What follows the two-character prefix (`= `) of a response, without the
/// line feed that ends it.
pub open spec fn move_payload(text: Seq<char>) -> Seq<char> {
    let rest = text.subrange(2, text.len() as int);
    if rest.len() > 0 && rest.last() == '\n' {
        rest.drop_last()
    } else {
        rest
    }
}

/// The move that the response to `genmove` names.
pub open spec fn genmove_result(text: Seq<char>) -> Result<Position, Error> {
    if text.len() < 2 {
        Err(Error::InvalidTextProtocol)
    } else {
        match parse_position(move_payload(text)) {
            Some(p) => Ok(p),
            None => Err(Error::ParsePositionError),
        }
    }
}

/// The outcome of a `genmove` command from its response: refused when the
/// response starts with `?`, else the move written after its two-character
/// prefix.
pub fn genmove_outcome(answer: &str) -> (r: Result<Position, Error>)
    ensures
        is_rejection(answer@) ==> r is Err && is_rejection_of(r->Err_0, answer@),
        !is_rejection(answer@) ==> r == genmove_result(answer@),
{
    if is_rejected(answer) {
        return Err(Error::UnknownError(String::from_str(answer)));
    }
    let cs = chars_of(answer);
    if cs.len() < 2 {
        return Err(Error::InvalidTextProtocol);
    }
    let mut end = cs.len();
    if cs[end - 1] == '\n' && end > 2 {
        end = end - 1;
    }
    let mut payload: Vec<char> = Vec::new();
    let mut i: usize = 2;
    while i < end
        invariant
            2 <= i <= end <= cs@.len(),
            payload@ == cs@.subrange(2, i as int),
        decreases end - i,
    {
        payload.push(cs[i]);
        i += 1;
        assert(payload@ =~= cs@.subrange(2, i as int));
    }
    assert(payload@ =~= move_payload(answer@));
    let text = crate::text::string_of(&payload);
    match Position::parse(text.as_str()) {
        Ok(p) => Ok(p),
        Err(e) => Err(Error::from(e)),
    }
}

/// A line of the engine's diagnostic stream that says it is ready for
/// commands.
pub fn is_ready_line(line: &str) -> (r: bool)
    ensures
        r == starts_with(line@, "GTP ready"@),
{
    has_prefix(&chars_of(line), &chars_of("GTP ready"))
}

/// Where a client stands in its conversation with the engine.
#[derive(Clone, Copy, Debug, PartialEq, Eq, Structural)]
pub enum Phase {
    /// The process has not been launched yet.
    Starting,
    /// Launched; waiting for the readiness line on the diagnostic stream.
    AwaitingHandshake,
    /// Ready for a command.
    Ready,
    /// A command was sent; its response is being read.
    AwaitingResponse,
    /// A launch or a stream failed; nothing more can be done.
    Faulted,
}

/// The decisions of an engine client, fed with what happened on the process
/// and its streams. One command at a time: its response ends at the first
/// empty line.
pub struct Session {
    phase: Phase,
    response: String,
}

impl Session {
    pub closed spec fn state(&self) -> Phase {
        self.phase
    }

    /// The lines of the response read so far, each ended by a line feed.
    pub closed spec fn pending(&self) -> Seq<char> {
        self.response@
    }

    pub fn new() -> (r: Session)
        ensures
            r.state() == Phase::Starting,
            r.pending() == Seq::<char>::empty(),
    {
        Session { phase: Phase::Starting, response: String::new() }
    }

    pub fn phase(&self) -> (r: Phase)
        ensures
            r == self.state(),
    {
        self.phase
    }

    /// The launch of the process succeeded (`ok`) or failed.
    pub fn launched(&mut self, ok: bool)
        requires
            old(self).state() == Phase::Starting,
        ensures
            final(self).state() == (if ok {
                Phase::AwaitingHandshake
            } else {
                Phase::Faulted
            }),
            final(self).pending() == old(self).pending(),
    {
        self.phase = if ok {
            Phase::AwaitingHandshake
        } else {
            Phase::Faulted
        };
    }

    /// A line read from the diagnostic stream during the handshake. Returns
    /// whether it was the readiness line, after which commands may be sent.
    pub fn diagnostic_line(&mut self, line: &str) -> (ready: bool)
        requires
            old(self).state() == Phase::AwaitingHandshake,
        ensures
            ready == starts_with(line@, "GTP ready"@),
            final(self).state() == (if ready {
                Phase::Ready
            } else {
                Phase::AwaitingHandshake
            }),
            final(self).pending() == old(self).pending(),
    {
        let ready = is_ready_line(line);
        if ready {
            self.phase = Phase::Ready;
        }
        ready
    }

    /// A stream could not be read or written, or was missing: fatal.
    pub fn stream_failed(&mut self)
        ensures
            final(self).state() == Phase::Faulted,
            final(self).pending() == old(self).pending(),
    {
        self.phase = Phase::Faulted;
    }

    /// A command line was written; its response starts empty.
    pub fn command_sent(&mut self)
        requires
            old(self).state() == Phase::Ready,
        ensures
            final(self).state() == Phase::AwaitingResponse,
            final(self).pending() == Seq::<char>::empty(),
    {
        self.phase = Phase::AwaitingResponse;
        self.response = String::new();
    }

    /// A line read from the output stream after a command. An empty line
    /// ends the response, which is handed back; any other line is kept with
    /// a line feed.
    pub fn output_line(&mut self, line: &str) -> (r: Option<String>)
        requires
            old(self).state() == Phase::AwaitingResponse,
        ensures
            line@.len() == 0 ==> {
                &&& r is Some
                &&& r->0@ == old(self).pending()
                &&& final(self).state() == Phase::Ready
                &&& final(self).pending() == Seq::<char>::empty()
            },
            line@.len() != 0 ==> {
                &&& r is None
                &&& final(self).state() == Phase::AwaitingResponse
                &&& final(self).pending() == old(self).pending() + line@ + seq!['\n']
            },
    {
        if line.is_empty() {
            let done = self.response.clone();
            self.response = String::new();
            self.phase = Phase::Ready;
            return Some(done);
        }
        self.response.append(line);
        push_char(&mut self.response, '\n');
        None
    }

    /// The output stream ended before the empty line: what was read so far
    /// is handed back, and the session can go no further.
    pub fn output_ended(&mut self) -> (r: String)
        requires
            old(self).state() == Phase::AwaitingResponse,
        ensures
            r@ == old(self).pending(),
            final(self).state() == Phase::Faulted,
            final(self).pending() == Seq::<char>::empty(),
    {
        self.phase = Phase::Faulted;
        let done = self.response.clone();
        self.response = String::new();
        done
    }
}

/// The picture of a reported state: the board, then one line for each of
/// the move number, the next player and the two capture counts.
pub open spec fn state_text(st: &State) -> Seq<char> {
    board_text(st.board@, st.board.side()) + "move number: "@ + decimal_text(st.move_num as nat)
        + seq!['\n'] + "next move: "@ + color_name(st.next_move) + seq!['\n']
        + "black stones captured: "@ + decimal_text(st.black_captured as nat) + seq!['\n']
        + "white stones captured: "@ + decimal_text(st.white_captured as nat) + seq!['\n']
}

impl State {
    /// The picture of the state.
    pub fn to_text(&self) -> (r: String)
        requires
            self.board.wf(),
            self.board.side() == 0 || has_letter((self.board.side() - 1) as nat),
        ensures
            r@ == state_text(self),
    {
        let mut r = self.board.to_text();
        r.append("move number: ");
        push_decimal(&mut r, self.move_num as u128);
        push_char(&mut r, '\n');
        r.append("next move: ");
        let name = self.next_move.to_text();
        r.append(name.as_str());
        push_char(&mut r, '\n');
        r.append("black stones captured: ");
        push_decimal(&mut r, self.black_captured as u128);
        push_char(&mut r, '\n');
        r.append("white stones captured: ");
        push_decimal(&mut r, self.white_captured as u128);
        push_char(&mut r, '\n');
        r
    }
}

} // verus!
