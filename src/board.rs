//! The Go board: stones, positions, a square grid stored row by row, and the
//! list of stone changes that turns one board into another.
use vstd::prelude::*;
use vstd::string::*;
use crate::text::{
    all_digits, char_from_code, chars_of, decimal_text, decimal_within, digits_value,
    lemma_decimal_text_value, parse_digits, push_char, push_decimal,
};

verus! {

/// The colour of a stone.
#[derive(Clone, Copy, Debug, PartialEq, Eq, Structural)]
pub enum Color {
    Black,
    White,
}

/// The content of one intersection: no stone, or a stone of one colour.
#[derive(Clone, Copy, Debug, PartialEq, Eq, Structural)]
pub struct Cell(pub Option<Color>);

impl Cell {
    pub fn empty() -> (r: Cell)
        ensures
            r.0 is None,
    {
        Cell(None)
    }

    pub fn black_stone() -> (r: Cell)
        ensures
            r.0 == Some(Color::Black),
    {
        Cell(Some(Color::Black))
    }

    pub fn white_stone() -> (r: Cell)
        ensures
            r.0 == Some(Color::White),
    {
        Cell(Some(Color::White))
    }

}

impl From<Color> for Cell {
    /// A cell holding a stone of `color`.
    fn from(color: Color) -> Cell {
        Cell(Some(color))
    }
}

impl vstd::std_specs::convert::FromSpecImpl<Color> for Cell {
    open spec fn obeys_from_spec() -> bool {
        true
    }

    open spec fn from_spec(color: Color) -> Cell {
        Cell(Some(color))
    }
}

/// A (column, row) pair, both counted from zero. Whether it lies on a board
/// is decided by the board it is used with.
#[derive(Clone, Copy, Debug, PartialEq, Eq, Structural)]
pub struct Position {
    pub x: usize,
    pub y: usize,
}

impl Position {
    pub fn new(x: usize, y: usize) -> (r: Position)
        ensures
            r.x == x,
            r.y == y,
    {
        Position { x: x, y: y }
    }
}

/// A position that does not lie on the board it was used with.
#[derive(Clone, Copy, Debug, PartialEq, Eq, Structural)]
pub struct IndexError {
    pub size: usize,
    pub position: Position,
}

/// A square grid of cells, stored row by row: the cell at column `x` and row
/// `y` is at index `y * size + x`.
pub struct Board {
    board: Vec<Cell>,
    size: usize,
}

impl View for Board {
    type V = Seq<Option<Color>>;

    /// The cells, row by row.
    closed spec fn view(&self) -> Seq<Option<Color>> {
        self.board@.map_values(|c: Cell| c.0)
    }
}

/// The storage index of column `x`, row `y` on a board of side `side`.
pub open spec fn index_of(side: nat, x: int, y: int) -> int {
    y * side + x
}

/// The cells of an empty board of side `side`.
pub open spec fn empty_cells(side: nat) -> Seq<Option<Color>> {
    Seq::new(side * side, |i: int| None)
}

proof fn lemma_index_in_range(side: nat, x: int, y: int)
    requires
        0 <= x < side,
        0 <= y < side,
    ensures
        0 <= index_of(side, x, y) < side * side,
{
    assert(0 <= y * side + x < side * side) by (nonlinear_arith)
        requires
            0 <= x < side,
            0 <= y < side,
    ;
}

proof fn lemma_index_injective(side: nat, x1: int, y1: int, x2: int, y2: int)
    requires
        0 <= x1 < side,
        0 <= y1 < side,
        0 <= x2 < side,
        0 <= y2 < side,
        index_of(side, x1, y1) == index_of(side, x2, y2),
    ensures
        x1 == x2,
        y1 == y2,
{
    if y1 < y2 {
        assert(y1 * side + x1 < y2 * side + x2) by (nonlinear_arith)
            requires
                0 <= x1 < side,
                0 <= x2,
                y1 < y2,
        ;
    } else if y2 < y1 {
        assert(y2 * side + x2 < y1 * side + x1) by (nonlinear_arith)
            requires
                0 <= x2 < side,
                0 <= x1,
                y2 < y1,
        ;
    }
}

impl Board {
    /// The length of a side.
    pub closed spec fn side(&self) -> nat {
        self.size as nat
    }

    /// The storage holds exactly `side * side` cells.
    pub closed spec fn wf(&self) -> bool {
        &&& self.board@.len() == self.size * self.size
        &&& self.size * self.size <= usize::MAX
    }

    pub open spec fn on_board(&self, pos: Position) -> bool {
        pos.x < self.side() && pos.y < self.side()
    }

    /// The content of column `x`, row `y`.
    pub open spec fn cell_at(&self, x: int, y: int) -> Option<Color> {
        self@[index_of(self.side(), x, y)]
    }

    proof fn lemma_wf_len(&self)
        requires
            self.wf(),
        ensures
            self@.len() == self.side() * self.side(),
            self.side() * self.side() <= usize::MAX,
    {
    }

    /// An empty board of side `size`.
    pub fn new_with_size(size: usize) -> (r: Board)
        requires
            size * size <= usize::MAX,
        ensures
            r.wf(),
            r.side() == size,
            r@ == empty_cells(size as nat),
            forall|x: int, y: int| 0 <= x < size && 0 <= y < size ==> #[trigger] r.cell_at(x, y) is None,
    {
        let n = size * size;
        let mut board: Vec<Cell> = Vec::new();
        let mut i: usize = 0;
        while i < n
            invariant
                0 <= i <= n,
                board@.len() == i,
                forall|j: int| 0 <= j < i ==> (#[trigger] board@[j]).0 is None,
            decreases n - i,
        {
            board.push(Cell::empty());
            i += 1;
        }
        let r = Board { board: board, size: size };
        assert(r@ =~= empty_cells(size as nat));
        assert forall|x: int, y: int| 0 <= x < size && 0 <= y < size implies #[trigger] r.cell_at(
            x,
            y,
        ) is None by {
            lemma_index_in_range(size as nat, x, y);
        }
        r
    }

    /// An empty board of the standard side, 19.
    pub fn default() -> (r: Board)
        ensures
            r.wf(),
            r.side() == 19,
            r@ == empty_cells(19),
            forall|x: int, y: int| 0 <= x < 19 && 0 <= y < 19 ==> #[trigger] r.cell_at(x, y) is None,
    {
        Board::new_with_size(19)
    }

    /// The length of a side.
    pub fn size(&self) -> (r: usize)
        ensures
            r == self.side(),
    {
        self.size
    }

    /// The storage index of `pos`, or an error when it is off the board.
    pub fn pos2idx(&self, pos: Position) -> (r: Result<usize, IndexError>)
        requires
            self.wf(),
        ensures
            self.on_board(pos) ==> r == Ok::<usize, IndexError>(
                index_of(self.side(), pos.x as int, pos.y as int) as usize,
            ),
            !self.on_board(pos) ==> r == Err::<usize, IndexError>(
                IndexError { size: self.side() as usize, position: pos },
            ),
    {
        if pos.x >= self.size || pos.y >= self.size {
            return Err(IndexError { size: self.size, position: pos });
        }
        proof {
            lemma_index_in_range(self.side(), pos.x as int, pos.y as int);
        }
        Ok(pos.y * self.size + pos.x)
    }

    /// The content of the cell at `pos`, or an error when it is off the board.
    pub fn get(&self, pos: Position) -> (r: Result<Cell, IndexError>)
        requires
            self.wf(),
        ensures
            self.on_board(pos) ==> r == Ok::<Cell, IndexError>(
                Cell(self.cell_at(pos.x as int, pos.y as int)),
            ),
            !self.on_board(pos) ==> r == Err::<Cell, IndexError>(
                IndexError { size: self.side() as usize, position: pos },
            ),
    {
        let idx = self.pos2idx(pos)?;
        proof {
            lemma_index_in_range(self.side(), pos.x as int, pos.y as int);
        }
        Ok(self.board[idx])
    }

    /// Overwrites the cell at `pos`; off the board, fails and changes nothing.
    pub fn set(&mut self, pos: Position, cell: Cell) -> (r: Result<(), IndexError>)
        requires
            old(self).wf(),
        ensures
            final(self).wf(),
            final(self).side() == old(self).side(),
            old(self).on_board(pos) ==> {
                &&& r is Ok
                &&& final(self)@ == old(self)@.update(
                    index_of(old(self).side(), pos.x as int, pos.y as int),
                    cell.0,
                )
                &&& final(self).cell_at(pos.x as int, pos.y as int) == cell.0
                &&& forall|x: int, y: int|
                    0 <= x < old(self).side() && 0 <= y < old(self).side() && (x != pos.x || y
                        != pos.y) ==> #[trigger] final(self).cell_at(x, y) == old(self).cell_at(
                        x,
                        y,
                    )
            },
            !old(self).on_board(pos) ==> {
                &&& r == Err::<(), IndexError>(
                    IndexError { size: old(self).side() as usize, position: pos },
                )
                &&& final(self)@ == old(self)@
            },
    {
        let idx = self.pos2idx(pos)?;
        proof {
            lemma_index_in_range(self.side(), pos.x as int, pos.y as int);
        }
        self.board.set(idx, cell);
        assert(self@ =~= old(self)@.update(idx as int, cell.0));
        assert forall|x: int, y: int|
            0 <= x < old(self).side() && 0 <= y < old(self).side() && (x != pos.x || y != pos.y)
                implies #[trigger] self.cell_at(x, y) == old(self).cell_at(x, y) by {
            lemma_index_in_range(self.side(), x, y);
            if index_of(self.side(), x, y) == idx {
                lemma_index_injective(self.side(), x, y, pos.x as int, pos.y as int);
            }
        }
        Ok(())
    }
}

// ---------------------------------------------------------------------------
// Differences between boards
// ---------------------------------------------------------------------------

/// One stone change: a stone appears at a position, or one disappears.
#[derive(Clone, Copy, Debug, PartialEq, Eq, Structural)]
pub enum Action {
    Add(Position, Color),
    Remove(Position, Color),
}

/// The changes at one position whose content goes from `f` to `t`: nothing
/// when equal, else the removal of the old stone before the addition of the
/// new one.
pub open spec fn cell_actions(f: Option<Color>, t: Option<Color>, pos: Position) -> Seq<Action> {
    if f == t {
        seq![]
    } else {
        let removed = match f {
            Some(c) => seq![Action::Remove(pos, c)],
            None => seq![],
        };
        let added = match t {
            Some(c) => seq![Action::Add(pos, c)],
            None => seq![],
        };
        removed + added
    }
}

/// The changes in columns `0..cols` of row `y`, column by column.
pub open spec fn row_actions(
    f: Seq<Option<Color>>,
    t: Seq<Option<Color>>,
    side: nat,
    y: nat,
    cols: nat,
) -> Seq<Action>
    decreases cols,
{
    if cols == 0 {
        seq![]
    } else {
        let x = (cols - 1) as nat;
        let i = index_of(side, x as int, y as int);
        row_actions(f, t, side, y, x) + cell_actions(
            f[i],
            t[i],
            Position { x: x as usize, y: y as usize },
        )
    }
}

/// The changes in rows `0..rows`, row by row.
pub open spec fn rows_actions(
    f: Seq<Option<Color>>,
    t: Seq<Option<Color>>,
    side: nat,
    rows: nat,
) -> Seq<Action>
    decreases rows,
{
    if rows == 0 {
        seq![]
    } else {
        rows_actions(f, t, side, (rows - 1) as nat) + row_actions(
            f,
            t,
            side,
            (rows - 1) as nat,
            side,
        )
    }
}

/// The changes from `from` to `to`, row 0 first and column 0 first within
/// a row; none at all for boards of different sides.
pub open spec fn board_diff(from: &Board, to: &Board) -> Seq<Action> {
    if from.side() != to.side() {
        seq![]
    } else {
        rows_actions(from@, to@, from.side(), from.side())
    }
}

/// The list of stone changes that turns `from` into `to`.
pub fn diff(from: &Board, to: &Board) -> (r: Vec<Action>)
    requires
        from.wf(),
        to.wf(),
    ensures
        r@ == board_diff(from, to),
{
    let mut res: Vec<Action> = Vec::new();
    if from.size != to.size {
        return res;
    }
    let n = from.size;
    let ghost f = from@;
    let ghost t = to@;
    let mut y: usize = 0;
    while y < n
        invariant
            n == from.side(),
            n == to.side(),
            from.wf(),
            to.wf(),
            f == from@,
            t == to@,
            0 <= y <= n,
            res@ == rows_actions(f, t, n as nat, y as nat),
        decreases n - y,
    {
        let mut x: usize = 0;
        while x < n
            invariant
                n == from.side(),
                n == to.side(),
                from.wf(),
                to.wf(),
                f == from@,
                t == to@,
                0 <= y < n,
                0 <= x <= n,
                res@ == rows_actions(f, t, n as nat, y as nat) + row_actions(
                    f,
                    t,
                    n as nat,
                    y as nat,
                    x as nat,
                ),
            decreases n - x,
        {
            proof {
                lemma_index_in_range(n as nat, x as int, y as int);
            }
            let idx = y * n + x;
            let pos = Position::new(x, y);
            let ghost before = res@;
            let a = from.board[idx];
            let b = to.board[idx];
            if a != b {
                if let Some(c) = a.0 {
                    res.push(Action::Remove(pos, c));
                }
                if let Some(c) = b.0 {
                    res.push(Action::Add(pos, c));
                }
            }
            assert(res@ =~= before + cell_actions(f[idx as int], t[idx as int], pos));
            x += 1;
        }
        y += 1;
    }
    res
}

// ---------------------------------------------------------------------------
// Replaying changes
// ---------------------------------------------------------------------------

/// The cells after one change: an added stone fills its position, a removed
/// one leaves it empty.
pub open spec fn action_effect(cells: Seq<Option<Color>>, side: nat, a: Action) -> Seq<
    Option<Color>,
> {
    match a {
        Action::Add(p, c) => cells.update(index_of(side, p.x as int, p.y as int), Some(c)),
        Action::Remove(p, c) => cells.update(index_of(side, p.x as int, p.y as int), None),
    }
}

/// The cells after the changes `acts`, first to last.
pub open spec fn apply_actions(cells: Seq<Option<Color>>, side: nat, acts: Seq<Action>) -> Seq<
    Option<Color>,
>
    decreases acts.len(),
{
    if acts.len() == 0 {
        cells
    } else {
        action_effect(apply_actions(cells, side, acts.drop_last()), side, acts.last())
    }
}

proof fn lemma_apply_concat(
    c: Seq<Option<Color>>,
    side: nat,
    s1: Seq<Action>,
    s2: Seq<Action>,
)
    ensures
        apply_actions(c, side, s1 + s2) == apply_actions(apply_actions(c, side, s1), side, s2),
    decreases s2.len(),
{
    if s2.len() == 0 {
        assert(s1 + s2 =~= s1);
    } else {
        assert((s1 + s2).drop_last() =~= s1 + s2.drop_last());
        lemma_apply_concat(c, side, s1, s2.drop_last());
    }
}

/// `c` holds the cells of `b` below index `k` and those of `a` from `k` on.
pub open spec fn agrees_up_to(
    c: Seq<Option<Color>>,
    a: Seq<Option<Color>>,
    b: Seq<Option<Color>>,
    k: int,
) -> bool {
    &&& c.len() == a.len()
    &&& forall|i: int| 0 <= i < c.len() ==> #[trigger] c[i] == if i < k { b[i] } else { a[i] }
}

proof fn lemma_cell_step(
    c: Seq<Option<Color>>,
    a: Seq<Option<Color>>,
    b: Seq<Option<Color>>,
    side: nat,
    x: nat,
    y: nat,
)
    requires
        side <= usize::MAX,
        a.len() == side * side,
        b.len() == side * side,
        x < side,
        y < side,
        agrees_up_to(c, a, b, index_of(side, x as int, y as int)),
    ensures
        agrees_up_to(
            apply_actions(
                c,
                side,
                cell_actions(
                    a[index_of(side, x as int, y as int)],
                    b[index_of(side, x as int, y as int)],
                    Position { x: x as usize, y: y as usize },
                ),
            ),
            a,
            b,
            index_of(side, x as int, y as int) + 1,
        ),
{
    lemma_index_in_range(side, x as int, y as int);
    let i = index_of(side, x as int, y as int);
    let pos = Position { x: x as usize, y: y as usize };
    let acts = cell_actions(a[i], b[i], pos);
    let r = apply_actions(c, side, acts);
    assert(pos.x as int == x && pos.y as int == y);
    assert(apply_actions(c, side, Seq::<Action>::empty()) == c);
    if a[i] == b[i] {
        assert(acts.len() == 0);
    } else {
        match a[i] {
            Some(ca) => {
                let one = seq![Action::Remove(pos, ca)];
                assert(one.drop_last() =~= Seq::<Action>::empty());
                assert(apply_actions(c, side, one) == c.update(i, None));
                match b[i] {
                    Some(cb) => {
                        assert(acts =~= one.push(Action::Add(pos, cb)));
                        assert(acts.drop_last() =~= one);
                        assert(r == c.update(i, None).update(i, Some(cb)));
                    },
                    None => {
                        assert(acts =~= one);
                    },
                }
            },
            None => {
                match b[i] {
                    Some(cb) => {
                        assert(acts =~= seq![Action::Add(pos, cb)]);
                        assert(acts.drop_last() =~= Seq::<Action>::empty());
                        assert(r == c.update(i, Some(cb)));
                    },
                    None => {},
                }
            },
        }
        assert(0 <= i < c.len());
        assert(r =~= c.update(i, b[i]));
    }
}

proof fn lemma_row_step(
    c: Seq<Option<Color>>,
    a: Seq<Option<Color>>,
    b: Seq<Option<Color>>,
    side: nat,
    y: nat,
    cols: nat,
)
    requires
        side <= usize::MAX,
        a.len() == side * side,
        b.len() == side * side,
        cols <= side,
        y < side,
        agrees_up_to(c, a, b, index_of(side, 0, y as int)),
    ensures
        agrees_up_to(
            apply_actions(c, side, row_actions(a, b, side, y, cols)),
            a,
            b,
            index_of(side, cols as int, y as int),
        ),
    decreases cols,
{
    if cols == 0 {
        assert(row_actions(a, b, side, y, 0) =~= Seq::<Action>::empty());
    } else {
        let x = (cols - 1) as nat;
        let i = index_of(side, x as int, y as int);
        let pos = Position { x: x as usize, y: y as usize };
        lemma_row_step(c, a, b, side, y, x);
        let mid = apply_actions(c, side, row_actions(a, b, side, y, x));
        lemma_apply_concat(c, side, row_actions(a, b, side, y, x), cell_actions(a[i], b[i], pos));
        lemma_cell_step(mid, a, b, side, x, y);
    }
}

proof fn lemma_rows_step(
    a: Seq<Option<Color>>,
    b: Seq<Option<Color>>,
    side: nat,
    rows: nat,
)
    requires
        side <= usize::MAX,
        a.len() == side * side,
        b.len() == side * side,
        rows <= side,
    ensures
        agrees_up_to(
            apply_actions(a, side, rows_actions(a, b, side, rows)),
            a,
            b,
            index_of(side, 0, rows as int),
        ),
    decreases rows,
{
    if rows == 0 {
        assert(rows_actions(a, b, side, 0) =~= Seq::<Action>::empty());
    } else {
        let y = (rows - 1) as nat;
        lemma_rows_step(a, b, side, y);
        let mid = apply_actions(a, side, rows_actions(a, b, side, y));
        lemma_apply_concat(a, side, rows_actions(a, b, side, y), row_actions(a, b, side, y, side));
        lemma_row_step(mid, a, b, side, y, side);
        assert(index_of(side, side as int, y as int) == index_of(side, 0, rows as int)) by (
        nonlinear_arith)
            requires
                rows == y + 1,
        ;
    }
}

proof fn lemma_no_change_row(f: Seq<Option<Color>>, side: nat, y: nat, cols: nat)
    ensures
        row_actions(f, f, side, y, cols).len() == 0,
    decreases cols,
{
    if cols > 0 {
        lemma_no_change_row(f, side, y, (cols - 1) as nat);
    }
}

proof fn lemma_no_change_rows(f: Seq<Option<Color>>, side: nat, rows: nat)
    ensures
        rows_actions(f, f, side, rows).len() == 0,
    decreases rows,
{
    if rows > 0 {
        lemma_no_change_rows(f, side, (rows - 1) as nat);
        lemma_no_change_row(f, side, (rows - 1) as nat, side);
    }
}

/// A board differs from itself in nothing, and replaying the differences
/// from `a` to `b` on the cells of `a` gives the cells of `b`.
pub proof fn lemma_diff_round_trip(a: &Board, b: &Board)
    requires
        a.wf(),
        b.wf(),
        a.side() == b.side(),
    ensures
        board_diff(a, a).len() == 0,
        apply_actions(a@, a.side(), board_diff(a, b)) == b@,
{
    let side = a.side();
    a.lemma_wf_len();
    b.lemma_wf_len();
    lemma_no_change_rows(a@, side, side);
    lemma_rows_step(a@, b@, side, side);
    let c = apply_actions(a@, side, board_diff(a, b));
    assert(index_of(side, 0, side as int) == side * side);
    assert(c =~= b@);
}

/// Boards of different sides have no differences, whatever they hold.
pub proof fn lemma_diff_unequal_sides(a: &Board, b: &Board)
    requires
        a.side() != b.side(),
    ensures
        board_diff(a, b).len() == 0,
{
}

// ---------------------------------------------------------------------------
// Text forms
// ---------------------------------------------------------------------------

/// Columns from 0 up to this bound have a letter: the character whose code
/// is 65 (`A`) plus the column.
pub open spec fn has_letter(x: nat) -> bool {
    x + 65 < 0xD800
}

/// Whether column `x` has a letter.
pub fn column_has_letter(x: usize) -> (r: bool)
    ensures
        r == has_letter(x as nat),
{
    x < 0xD800 - 65
}

/// The letter of column `x`: `A` for 0, `B` for 1, and so on.
pub open spec fn column_letter(x: nat) -> char {
    (x + 65) as char
}

/// The coordinate text of a position: the column letter, then the row
/// counted from one (`D4` for column 3, row 3).
pub open spec fn position_text(p: Position) -> Seq<char> {
    seq![column_letter(p.x as nat)] + decimal_text(p.y as nat + 1)
}

/// The position that coordinate text names: a capital letter `A` to `Z`,
/// then the row counted from one in decimal digits.
pub open spec fn parse_position(s: Seq<char>) -> Option<Position> {
    let digits = s.subrange(1, s.len() as int);
    if s.len() >= 2 && 'A' <= s[0] && s[0] <= 'Z' && decimal_within(digits, (usize::MAX + 1) as nat)
        && digits_value(digits) >= 1 {
        Some(Position { x: (s[0] as int - 65) as usize, y: (digits_value(digits) - 1) as usize })
    } else {
        None
    }
}

/// Text that is not the coordinate form of a position.
#[derive(Clone, Copy, Debug, PartialEq, Eq, Structural)]
pub struct ParsePositionError;

pub open spec fn color_name(c: Color) -> Seq<char> {
    match c {
        Color::Black => "Black"@,
        Color::White => "White"@,
    }
}

pub open spec fn cell_symbol(c: Option<Color>) -> char {
    match c {
        Some(Color::Black) => 'B',
        Some(Color::White) => 'W',
        None => '.',
    }
}

pub open spec fn action_text(a: Action) -> Seq<char> {
    match a {
        Action::Add(p, c) => "Add to "@ + position_text(p) + " "@ + color_name(c) + " stone"@,
        Action::Remove(p, c) => "Remove from "@ + position_text(p) + " "@ + color_name(c)
            + " stone"@,
    }
}

impl Color {
    /// The name of the colour: `Black` or `White`.
    pub fn to_text(&self) -> (r: String)
        ensures
            r@ == color_name(*self),
    {
        match self {
            Color::Black => String::from_str("Black"),
            Color::White => String::from_str("White"),
        }
    }
}

impl Cell {
    /// `B` for a black stone, `W` for a white one, `.` for none.
    pub fn symbol(&self) -> (r: char)
        ensures
            r == cell_symbol(self.0),
    {
        match self.0 {
            Some(Color::Black) => 'B',
            Some(Color::White) => 'W',
            None => '.',
        }
    }
}

impl Position {
    /// The coordinate text of the position, such as `D4`.
    pub fn to_text(&self) -> (r: String)
        requires
            has_letter(self.x as nat),
        ensures
            r@ == position_text(*self),
    {
        let mut r = String::new();
        if let Some(c) = char_from_code(65 + self.x as u32) {
            push_char(&mut r, c);
        }
        push_decimal(&mut r, self.y as u128 + 1);
        assert(r@ =~= position_text(*self));
        r
    }

    /// The position that coordinate text such as `D4` names.
    pub fn parse(s: &str) -> (r: Result<Position, ParsePositionError>)
        ensures
            r == (match parse_position(s@) {
                Some(p) => Ok::<Position, ParsePositionError>(p),
                None => Err(ParsePositionError),
            }),
    {
        let cs = chars_of(s);
        if cs.len() < 2 {
            return Err(ParsePositionError);
        }
        let c = cs[0];
        if !('A' <= c && c <= 'Z') {
            return Err(ParsePositionError);
        }
        let limit: u128 = usize::MAX as u128 + 1;
        match parse_digits(&cs, 1, limit) {
            Some(v) => {
                if v == 0 {
                    return Err(ParsePositionError);
                }
                Ok(Position { x: (c as u32 - 65) as usize, y: (v - 1) as usize })
            },
            None => Err(ParsePositionError),
        }
    }
}

impl std::str::FromStr for Position {
    type Err = ParsePositionError;

    fn from_str(s: &str) -> Result<Position, ParsePositionError> {
        Position::parse(s)
    }
}

/// The coordinate text of any position whose column has a letter from `A`
/// to `Z` reads back as that position.
pub proof fn lemma_position_text_round_trip(p: Position)
    requires
        p.x < 26,
    ensures
        parse_position(position_text(p)) == Some(p),
{
    let s = position_text(p);
    lemma_decimal_text_value(p.y as nat + 1);
    assert(s.subrange(1, s.len() as int) =~= decimal_text(p.y as nat + 1));
}

impl Action {
    /// A sentence naming the change, such as `Add to D4 Black stone`.
    pub fn to_text(&self) -> (r: String)
        requires
            match *self {
                Action::Add(p, _) => has_letter(p.x as nat),
                Action::Remove(p, _) => has_letter(p.x as nat),
            },
        ensures
            r@ == action_text(*self),
    {
        let (mut r, p, c) = match *self {
            Action::Add(p, c) => (String::from_str("Add to "), p, c),
            Action::Remove(p, c) => (String::from_str("Remove from "), p, c),
        };
        let pos = p.to_text();
        r.append(pos.as_str());
        r.append(" ");
        let name = c.to_text();
        r.append(name.as_str());
        r.append(" stone");
        r
    }
}

/// The label of row `y`: its number counted from one, right-aligned in two
/// places, then a bar.
pub open spec fn row_label(y: nat) -> Seq<char> {
    let d = decimal_text(y + 1);
    (if d.len() < 2 {
        seq![' '] + d
    } else {
        d
    }) + "| "@
}

/// The symbols of columns `0..cols` of row `y`, each followed by a space.
pub open spec fn row_cells_text(cells: Seq<Option<Color>>, side: nat, y: nat, cols: nat) -> Seq<
    char,
>
    decreases cols,
{
    if cols == 0 {
        seq![]
    } else {
        let x = (cols - 1) as nat;
        row_cells_text(cells, side, y, x) + seq![
            cell_symbol(cells[index_of(side, x as int, y as int)]),
            ' ',
        ]
    }
}

/// The `k` highest rows, highest first, one line each.
pub open spec fn top_rows_text(cells: Seq<Option<Color>>, side: nat, k: nat) -> Seq<char>
    decreases k,
{
    if k == 0 {
        seq![]
    } else {
        let y = (side - k) as nat;
        top_rows_text(cells, side, (k - 1) as nat) + row_label(y) + row_cells_text(
            cells,
            side,
            y,
            side,
        ) + seq!['\n']
    }
}

/// `k` pairs of underscores.
pub open spec fn rule_text(k: nat) -> Seq<char>
    decreases k,
{
    if k == 0 {
        seq![]
    } else {
        rule_text((k - 1) as nat) + seq!['_', '_']
    }
}

/// The letters of columns `0..k`, each followed by a space.
pub open spec fn letters_text(k: nat) -> Seq<char>
    decreases k,
{
    if k == 0 {
        seq![]
    } else {
        letters_text((k - 1) as nat) + seq![column_letter((k - 1) as nat), ' ']
    }
}

/// The picture of a board: its rows from the highest down, then a rule and
/// the column letters.
pub open spec fn board_text(cells: Seq<Option<Color>>, side: nat) -> Seq<char> {
    top_rows_text(cells, side, side) + "    "@ + rule_text(side) + seq!['\n'] + "    "@
        + letters_text(side) + seq!['\n']
}

impl Board {
    /// The picture of the board, highest row first.
    pub fn to_text(&self) -> (r: String)
        requires
            self.wf(),
            self.side() == 0 || has_letter((self.side() - 1) as nat),
        ensures
            r@ == board_text(self@, self.side()),
    {
        proof {
            self.lemma_wf_len();
        }
        let n = self.size;
        let ghost cells = self@;
        let mut r = String::new();
        let mut k: usize = 0;
        while k < n
            invariant
                n == self.side(),
                cells == self@,
                self.wf(),
                cells.len() == n * n,
                0 <= k <= n,
                r@ == top_rows_text(cells, n as nat, k as nat),
            decreases n - k,
        {
            let y = n - k - 1;
            let ghost before = r@;
            if y + 1 < 10 {
                push_char(&mut r, ' ');
            }
            push_decimal(&mut r, y as u128 + 1);
            proof {
                lemma_decimal_text_value(y as nat + 1);
                lemma_short_decimal(y as nat + 1);
            }
            r.append("| ");
            assert(r@ =~= before + row_label(y as nat));
            let ghost labelled = r@;
            let mut x: usize = 0;
            while x < n
                invariant
                    n == self.side(),
                    cells == self@,
                    self.wf(),
                    cells.len() == n * n,
                    0 <= x <= n,
                    y < n,
                    r@ == labelled + row_cells_text(cells, n as nat, y as nat, x as nat),
                decreases n - x,
            {
                proof {
                    lemma_index_in_range(n as nat, x as int, y as int);
                }
                let c = self.board[y * n + x].symbol();
                push_char(&mut r, c);
                push_char(&mut r, ' ');
                x += 1;
                assert(r@ =~= labelled + row_cells_text(cells, n as nat, y as nat, x as nat));
            }
            push_char(&mut r, '\n');
            k += 1;
            assert(r@ =~= top_rows_text(cells, n as nat, k as nat));
        }
        let ghost rows = r@;
        r.append("    ");
        let mut i: usize = 0;
        while i < n
            invariant
                0 <= i <= n,
                r@ == rows + "    "@ + rule_text(i as nat),
            decreases n - i,
        {
            r.append("__");
            proof {
                reveal_strlit("__");
            }
            i += 1;
            assert(r@ =~= rows + "    "@ + rule_text(i as nat));
        }
        push_char(&mut r, '\n');
        let ghost ruled = r@;
        r.append("    ");
        let mut j: usize = 0;
        while j < n
            invariant
                n == self.side(),
                n == 0 || has_letter((n - 1) as nat),
                0 <= j <= n,
                r@ == ruled + "    "@ + letters_text(j as nat),
            decreases n - j,
        {
            if let Some(c) = char_from_code(65 + j as u32) {
                push_char(&mut r, c);
            }
            push_char(&mut r, ' ');
            j += 1;
            assert(r@ =~= ruled + "    "@ + letters_text(j as nat));
        }
        push_char(&mut r, '\n');
        assert(r@ =~= board_text(cells, n as nat));
        r
    }
}

/// Numbers below ten have one digit, the others at least two.
proof fn lemma_short_decimal(n: nat)
    ensures
        (decimal_text(n).len() < 2) == (n < 10),
{
    if n >= 10 {
        lemma_decimal_text_value(n / 10);
    }
}

} // verus!
