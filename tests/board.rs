use robogo::board::{diff, Action, Board, Cell, Color, IndexError, ParsePositionError, Position};

fn board_with(size: usize, stones: &[(usize, usize, Color)]) -> Board {
    let mut b = Board::new_with_size(size);
    for &(x, y, c) in stones {
        b.set(Position::new(x, y), Cell::from(c)).unwrap();
    }
    b
}

fn cells(b: &Board) -> Vec<Option<Color>> {
    let n = b.size();
    let mut out = Vec::new();
    for y in 0..n {
        for x in 0..n {
            out.push(b.get(Position::new(x, y)).unwrap().0);
        }
    }
    out
}

fn apply(b: &mut Board, actions: &[Action]) {
    for a in actions {
        match *a {
            Action::Add(p, c) => b.set(p, Cell::from(c)).unwrap(),
            Action::Remove(p, _) => b.set(p, Cell::empty()).unwrap(),
        }
    }
}

#[test]
fn cell_constructors() {
    assert_eq!(Cell::empty(), Cell(None));
    assert_eq!(Cell::black_stone(), Cell(Some(Color::Black)));
    assert_eq!(Cell::white_stone(), Cell(Some(Color::White)));
    assert_eq!(Cell::from(Color::White), Cell::white_stone());
}

#[test]
fn new_board_is_empty() {
    let b = Board::new_with_size(5);
    assert_eq!(b.size(), 5);
    assert!(cells(&b).iter().all(|c| c.is_none()));
    assert_eq!(cells(&b).len(), 25);
}

#[test]
fn default_board_has_side_19() {
    let b = Board::default();
    assert_eq!(b.size(), 19);
    assert_eq!(b.get(Position::new(18, 18)), Ok(Cell::empty()));
}

#[test]
fn zero_sized_board_has_no_cells() {
    let b = Board::new_with_size(0);
    assert_eq!(b.size(), 0);
    assert!(b.get(Position::new(0, 0)).is_err());
}

#[test]
fn pos2idx_is_row_major() {
    let b = Board::new_with_size(4);
    assert_eq!(b.pos2idx(Position::new(0, 0)), Ok(0));
    assert_eq!(b.pos2idx(Position::new(3, 0)), Ok(3));
    assert_eq!(b.pos2idx(Position::new(1, 2)), Ok(9));
    assert_eq!(b.pos2idx(Position::new(3, 3)), Ok(15));
}

#[test]
fn pos2idx_off_board_fails() {
    let b = Board::new_with_size(4);
    assert_eq!(
        b.pos2idx(Position::new(4, 0)),
        Err(IndexError { size: 4, position: Position::new(4, 0) })
    );
    assert!(b.pos2idx(Position::new(0, 4)).is_err());
}

#[test]
fn set_then_get_returns_cell() {
    let mut b = Board::new_with_size(9);
    for y in 0..9 {
        for x in 0..9 {
            let cell = if (x + y) % 3 == 0 {
                Cell::black_stone()
            } else if (x + y) % 3 == 1 {
                Cell::white_stone()
            } else {
                Cell::empty()
            };
            assert_eq!(b.set(Position::new(x, y), cell), Ok(()));
            assert_eq!(b.get(Position::new(x, y)), Ok(cell));
        }
    }
    assert_eq!(b.get(Position::new(0, 0)), Ok(Cell::black_stone()));
    assert_eq!(b.get(Position::new(1, 0)), Ok(Cell::white_stone()));
    assert_eq!(b.get(Position::new(2, 0)), Ok(Cell::empty()));
}

#[test]
fn set_leaves_other_cells_alone() {
    let mut b = Board::new_with_size(3);
    b.set(Position::new(1, 2), Cell::black_stone()).unwrap();
    let c = cells(&b);
    assert_eq!(c[7], Some(Color::Black));
    assert_eq!(c.iter().filter(|c| c.is_some()).count(), 1);
}

#[test]
fn set_off_board_fails_with_index_error() {
    let mut b = Board::new_with_size(9);
    b.set(Position::new(2, 2), Cell::white_stone()).unwrap();
    let before = cells(&b);
    assert_eq!(
        b.set(Position::new(9, 0), Cell::black_stone()),
        Err(IndexError { size: 9, position: Position::new(9, 0) })
    );
    assert_eq!(
        b.set(Position::new(0, 9), Cell::black_stone()),
        Err(IndexError { size: 9, position: Position::new(0, 9) })
    );
    assert!(b.set(Position::new(usize::MAX, usize::MAX), Cell::empty()).is_err());
    assert_eq!(cells(&b), before);
}

#[test]
fn diff_of_identical_boards_is_empty() {
    let a = board_with(5, &[(0, 0, Color::Black), (4, 4, Color::White), (2, 3, Color::Black)]);
    assert!(diff(&a, &a).is_empty());
    let e = Board::new_with_size(5);
    assert!(diff(&e, &e).is_empty());
}

#[test]
fn diff_then_apply_gives_target() {
    let stones_a = [(0, 0, Color::Black), (1, 0, Color::White), (2, 2, Color::Black)];
    let stones_b = [(0, 0, Color::White), (2, 2, Color::Black), (3, 1, Color::White)];
    let a = board_with(4, &stones_a);
    let b = board_with(4, &stones_b);
    let actions = diff(&a, &b);
    let mut copy = board_with(4, &stones_a);
    apply(&mut copy, &actions);
    assert_eq!(cells(&copy), cells(&b));
}

#[test]
fn diff_of_disjoint_boards_has_a_pair_per_position() {
    let mut a = Board::new_with_size(2);
    let mut b = Board::new_with_size(2);
    for y in 0..2 {
        for x in 0..2 {
            a.set(Position::new(x, y), Cell::black_stone()).unwrap();
            b.set(Position::new(x, y), Cell::white_stone()).unwrap();
        }
    }
    let actions = diff(&a, &b);
    assert_eq!(actions.len(), 8);
    let mut copy = Board::new_with_size(2);
    apply(&mut copy, &diff(&Board::new_with_size(2), &a));
    apply(&mut copy, &actions);
    assert_eq!(cells(&copy), cells(&b));
}

#[test]
fn diff_of_unequal_sizes_is_empty() {
    let a = board_with(3, &[(0, 0, Color::Black)]);
    let b = board_with(4, &[(1, 1, Color::White)]);
    assert!(diff(&a, &b).is_empty());
    assert!(diff(&b, &a).is_empty());
    assert!(diff(&Board::new_with_size(3), &Board::default()).is_empty());
}

#[test]
fn diff_example_three_by_three() {
    let from = Board::new_with_size(3);
    let to = board_with(3, &[(0, 0, Color::Black), (1, 1, Color::White)]);
    assert_eq!(
        diff(&from, &to),
        vec![
            Action::Add(Position::new(0, 0), Color::Black),
            Action::Add(Position::new(1, 1), Color::White),
        ]
    );
}

#[test]
fn diff_order_is_row_major_with_remove_first() {
    let from = board_with(3, &[(2, 0, Color::Black), (0, 1, Color::White)]);
    let to = board_with(3, &[(2, 0, Color::White), (1, 0, Color::Black)]);
    assert_eq!(
        diff(&from, &to),
        vec![
            Action::Add(Position::new(1, 0), Color::Black),
            Action::Remove(Position::new(2, 0), Color::Black),
            Action::Add(Position::new(2, 0), Color::White),
            Action::Remove(Position::new(0, 1), Color::White),
        ]
    );
}

#[test]
fn position_text_examples() {
    assert_eq!(Position::new(3, 3).to_text(), "D4");
    assert_eq!(Position::new(0, 0).to_text(), "A1");
    assert_eq!(Position::new(18, 18).to_text(), "S19");
    assert_eq!(Position::new(25, 99).to_text(), "Z100");
}

#[test]
fn position_text_round_trip() {
    for x in 0..26 {
        for y in [0usize, 1, 8, 9, 10, 18, 99, 1000, 123456, usize::MAX - 1, usize::MAX] {
            let p = Position::new(x, y);
            assert_eq!(Position::parse(&p.to_text()), Ok(p));
        }
    }
}

#[test]
fn position_parse_examples() {
    assert_eq!(Position::parse("D4"), Ok(Position::new(3, 3)));
    assert_eq!(Position::parse("T19"), Ok(Position::new(19, 18)));
    assert_eq!(Position::parse("A01"), Ok(Position::new(0, 0)));
    assert_eq!("Q16".parse::<Position>(), Ok(Position::new(16, 15)));
}

#[test]
fn position_parse_rejects_other_text() {
    for s in ["", "D", "4D", "d4", "D0", "D-1", "D4 ", "pass", "resign", "D+4", "DD4"] {
        assert_eq!(Position::parse(s), Err(ParsePositionError), "{s:?}");
    }
    assert_eq!(Position::parse("A18446744073709551617"), Err(ParsePositionError));
    assert_eq!(
        Position::parse("A18446744073709551616"),
        Ok(Position::new(0, usize::MAX))
    );
}

#[test]
fn color_and_cell_text() {
    assert_eq!(Color::Black.to_text(), "Black");
    assert_eq!(Color::White.to_text(), "White");
    assert_eq!(Cell::black_stone().symbol(), 'B');
    assert_eq!(Cell::white_stone().symbol(), 'W');
    assert_eq!(Cell::empty().symbol(), '.');
}

#[test]
fn action_text() {
    assert_eq!(
        Action::Add(Position::new(3, 3), Color::Black).to_text(),
        "Add to D4 Black stone"
    );
    assert_eq!(
        Action::Remove(Position::new(0, 9), Color::White).to_text(),
        "Remove from A10 White stone"
    );
}

#[test]
fn board_text_highest_row_first() {
    let b = board_with(3, &[(0, 0, Color::Black), (1, 1, Color::White)]);
    assert_eq!(
        b.to_text(),
        " 3| . . . \n 2| . W . \n 1| B . . \n    ______\n    A B C \n"
    );
}

#[test]
fn board_text_two_digit_rows() {
    let b = board_with(10, &[(9, 9, Color::Black)]);
    let text = b.to_text();
    let first = text.lines().next().unwrap();
    assert_eq!(first, "10| . . . . . . . . . B ");
    assert_eq!(text.lines().nth(9).unwrap(), " 1| . . . . . . . . . . ");
    assert_eq!(text.lines().last().unwrap(), "    A B C D E F G H I J ");
}
