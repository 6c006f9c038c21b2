use robogo::board::Color;
use robogo::katago::parse::{black_captured, board_line, move_num, next_move, white_captured};
use robogo::katago::Error;

#[test]
fn move_num_reads_third_word() {
    assert!(matches!(move_num("= MoveNum: 12 HASH: 0123456789ABCDEF"), Ok(12)));
    assert!(matches!(move_num("= MoveNum: 0"), Ok(0)));
    assert!(matches!(move_num("= MoveNum:   7\t"), Ok(7)));
    assert!(matches!(move_num("= MoveNum: 4294967295"), Ok(4294967295)));
}

#[test]
fn move_num_rejects_other_lines() {
    for line in [
        "",
        "MoveNum: 12",
        "= Movenum: 12",
        "= MoveNum:",
        "= MoveNum: ",
        "= MoveNum: x12",
        "= MoveNum: -1",
        "= MoveNum: 4294967296",
    ] {
        assert!(matches!(move_num(line), Err(Error::InvalidTextProtocol)), "{line:?}");
    }
}

#[test]
fn board_line_reads_markers_at_offsets() {
    let row = board_line(" 9 X . O . .", 5).unwrap();
    assert_eq!(row, vec![Some(Color::Black), None, Some(Color::White), None, None]);
    let row = board_line("19 . . . . . . . . . . . . . . . . . . O", 19).unwrap();
    assert_eq!(row[18], Some(Color::White));
    assert!(row[..18].iter().all(|c| c.is_none()));
}

#[test]
fn board_line_ignores_other_characters() {
    let row = board_line(" 1 x o + X2O", 5).unwrap();
    assert_eq!(row, vec![None, None, None, Some(Color::Black), Some(Color::White)]);
}

#[test]
fn board_line_too_short_fails() {
    assert!(matches!(board_line(" 9 X . O .", 5), Err(Error::InvalidTextProtocol)));
    assert!(matches!(board_line(" 9 X . O . ", 5), Err(Error::InvalidTextProtocol)));
    assert!(matches!(board_line("", 1), Err(Error::InvalidTextProtocol)));
    assert!(board_line(" 9 X", 1).is_ok());
}

#[test]
fn board_line_of_no_columns_is_empty() {
    assert_eq!(board_line("", 0).unwrap(), vec![]);
}

#[test]
fn next_move_reads_color() {
    assert!(matches!(next_move("Next player: Black"), Ok(Color::Black)));
    assert!(matches!(next_move("Next player: White"), Ok(Color::White)));
    assert!(matches!(next_move("Next player:  White  extra"), Ok(Color::White)));
}

#[test]
fn next_move_rejects_other_lines() {
    for line in ["", "Next player:", "Next player: black", "Next player: Red", "Next: White"] {
        assert!(matches!(next_move(line), Err(Error::InvalidTextProtocol)), "{line:?}");
    }
}

#[test]
fn captured_counts_are_read() {
    assert!(matches!(black_captured("B stones captured: 3"), Ok(3)));
    assert!(matches!(white_captured("W stones captured: 0"), Ok(0)));
    assert!(matches!(white_captured("W stones captured: +15"), Ok(15)));
}

#[test]
fn captured_counts_need_their_own_tag() {
    assert!(matches!(black_captured("W stones captured: 3"), Err(Error::InvalidTextProtocol)));
    assert!(matches!(white_captured("B stones captured: 3"), Err(Error::InvalidTextProtocol)));
    assert!(matches!(black_captured("B stones captured:"), Err(Error::InvalidTextProtocol)));
}

#[test]
fn captured_count_that_is_not_a_number_fails() {
    assert!(matches!(black_captured("B stones captured: many"), Err(Error::ParseIntError)));
    assert!(matches!(white_captured("W stones captured: -2"), Err(Error::ParseIntError)));
    assert!(matches!(
        white_captured("W stones captured: 99999999999"),
        Err(Error::ParseIntError)
    ));
}
