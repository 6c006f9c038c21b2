use robogo::board::{Cell, Color, Position};
use robogo::katago::{
    genmove_command, genmove_outcome, is_ready_line, is_rejected, play_command, play_outcome,
    showboard_command, state_from_response, Error, Phase, Session,
};

const DUMP_9: [&str; 15] = [
    "= MoveNum: 7 HASH: 0123456789ABCDEF",
    "   A B C D E F G H J",
    " 9 X . . . . . . . .",
    " 8 . . . . . . . . .",
    " 7 . . O . . . . . .",
    " 6 . . . . . . . . .",
    " 5 . . . . X . . . .",
    " 4 . . . . . . . . .",
    " 3 . . . . . . . . .",
    " 2 . . . . . . . . O",
    " 1 X . . . . . . . .",
    "Next player: White",
    "Rules: {\"ko\":\"POSITIONAL\",\"scoring\":\"AREA\"}",
    "B stones captured: 2",
    "W stones captured: 3",
];

fn ready_session() -> Session {
    let mut s = Session::new();
    s.launched(true);
    assert!(s.diagnostic_line("GTP ready, beginning main protocol loop"));
    s
}

fn response(lines: &[&str]) -> String {
    let mut s = ready_session();
    s.command_sent();
    for line in lines {
        assert!(s.output_line(line).is_none());
    }
    let r = s.output_line("").unwrap();
    assert_eq!(s.phase(), Phase::Ready);
    r
}

#[test]
fn state_from_nine_by_nine_dump() {
    let answer = response(&DUMP_9);
    let st = state_from_response(&answer, 9).unwrap();
    assert_eq!(st.move_num, 7);
    assert_eq!(st.next_move, Color::White);
    assert_eq!(st.black_captured, 2);
    assert_eq!(st.white_captured, 3);
    assert_eq!(st.board.size(), 9);
    let stones = [
        (0, 8, Color::Black),
        (2, 6, Color::White),
        (4, 4, Color::Black),
        (8, 1, Color::White),
        (0, 0, Color::Black),
    ];
    for y in 0..9 {
        for x in 0..9 {
            let expected = stones
                .iter()
                .find(|s| s.0 == x && s.1 == y)
                .map(|s| s.2);
            assert_eq!(st.board.get(Position::new(x, y)), Ok(Cell(expected)), "({x}, {y})");
        }
    }
}

#[test]
fn state_from_dump_three_lines_short() {
    let answer = response(&DUMP_9[..12]);
    assert!(matches!(state_from_response(&answer, 9), Err(Error::InvalidTextProtocol)));
}

#[test]
fn state_from_dump_one_line_short() {
    let answer = response(&DUMP_9[..14]);
    assert!(matches!(state_from_response(&answer, 9), Err(Error::InvalidTextProtocol)));
}

#[test]
fn state_from_dump_with_short_row() {
    let mut lines = DUMP_9.to_vec();
    lines[6] = " 5 . . . .";
    let answer = response(&lines);
    assert!(matches!(state_from_response(&answer, 9), Err(Error::InvalidTextProtocol)));
}

#[test]
fn state_from_dump_with_bad_capture_count() {
    let mut lines = DUMP_9.to_vec();
    lines[14] = "W stones captured: lots";
    let answer = response(&lines);
    assert!(matches!(state_from_response(&answer, 9), Err(Error::ParseIntError)));
}

#[test]
fn state_from_dump_with_bad_header() {
    let mut lines = DUMP_9.to_vec();
    lines[0] = "= Move: 7";
    lines[11] = "Next player: Green";
    let answer = response(&lines);
    assert!(matches!(state_from_response(&answer, 9), Err(Error::InvalidTextProtocol)));
}

#[test]
fn state_from_rejected_dump() {
    let answer = "? unknown command\n";
    match state_from_response(answer, 9) {
        Err(Error::UnknownError(text)) => assert_eq!(text, answer),
        _ => panic!("expected the rejection"),
    }
}

#[test]
fn state_text_lists_counts() {
    let answer = response(&DUMP_9);
    let st = state_from_response(&answer, 9).unwrap();
    let text = st.to_text();
    assert!(text.starts_with(" 9| B . . . . . . . . \n"));
    assert!(text.ends_with(
        "move number: 7\nnext move: White\nblack stones captured: 2\nwhite stones captured: 3\n"
    ));
}

#[test]
fn rejected_play_and_genmove_carry_the_text() {
    let answer = "? illegal move\n";
    assert!(is_rejected(answer));
    match play_outcome(answer) {
        Err(Error::UnknownError(text)) => assert_eq!(text, answer),
        _ => panic!("expected the rejection"),
    }
    match genmove_outcome(answer) {
        Err(Error::UnknownError(text)) => assert_eq!(text, answer),
        _ => panic!("expected the rejection"),
    }
}

#[test]
fn accepted_play() {
    assert!(!is_rejected("= \n"));
    assert!(play_outcome("= \n").is_ok());
    assert!(play_outcome("").is_ok());
}

#[test]
fn genmove_reads_the_move() {
    assert_eq!(genmove_outcome("= D4\n").unwrap(), Position::new(3, 3));
    assert_eq!(genmove_outcome("= Q16").unwrap(), Position::new(16, 15));
}

#[test]
fn genmove_that_is_not_a_move_fails() {
    assert!(matches!(genmove_outcome("= pass\n"), Err(Error::ParsePositionError)));
    assert!(matches!(genmove_outcome("= \n"), Err(Error::ParsePositionError)));
    assert!(matches!(genmove_outcome("="), Err(Error::InvalidTextProtocol)));
    assert!(matches!(genmove_outcome(""), Err(Error::InvalidTextProtocol)));
}

#[test]
fn commands_are_spelled_out() {
    assert_eq!(showboard_command(), "showboard");
    assert_eq!(play_command(Color::Black, Position::new(3, 3)), "play Black D4");
    assert_eq!(play_command(Color::White, Position::new(0, 18)), "play White A19");
    assert_eq!(genmove_command(Color::White), "genmove White");
}

#[test]
fn ready_marker_is_a_prefix() {
    assert!(is_ready_line("GTP ready, beginning main protocol loop"));
    assert!(is_ready_line("GTP ready"));
    assert!(!is_ready_line("Loaded model"));
    assert!(!is_ready_line(" GTP ready"));
    assert!(!is_ready_line(""));
}

#[test]
fn session_handshake_then_commands() {
    let mut s = Session::new();
    assert_eq!(s.phase(), Phase::Starting);
    s.launched(true);
    assert_eq!(s.phase(), Phase::AwaitingHandshake);
    assert!(!s.diagnostic_line("Loading model"));
    assert_eq!(s.phase(), Phase::AwaitingHandshake);
    assert!(s.diagnostic_line("GTP ready, beginning main protocol loop"));
    assert_eq!(s.phase(), Phase::Ready);
    s.command_sent();
    assert_eq!(s.phase(), Phase::AwaitingResponse);
    assert_eq!(s.output_line("= first"), None);
    assert_eq!(s.output_line("second"), None);
    assert_eq!(s.output_line("").as_deref(), Some("= first\nsecond\n"));
    assert_eq!(s.phase(), Phase::Ready);
    s.command_sent();
    assert_eq!(s.output_line("").as_deref(), Some(""));
}

#[test]
fn session_failed_launch_is_faulted() {
    let mut s = Session::new();
    s.launched(false);
    assert_eq!(s.phase(), Phase::Faulted);
}

#[test]
fn session_stream_failure_is_faulted() {
    let mut s = ready_session();
    s.command_sent();
    assert_eq!(s.output_line("= partial"), None);
    s.stream_failed();
    assert_eq!(s.phase(), Phase::Faulted);
}

#[test]
fn session_output_ended_hands_back_partial_response() {
    let mut s = ready_session();
    s.command_sent();
    assert_eq!(s.output_line("= partial"), None);
    assert_eq!(s.output_ended(), "= partial\n");
    assert_eq!(s.phase(), Phase::Faulted);
}
