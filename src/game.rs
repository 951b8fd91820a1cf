use vstd::prelude::*;
use vstd::string::StringExecFns;

verus! {

/// One of the two players' symbols.
#[derive(Copy, Clone, Debug, PartialEq, Eq, Structural)]
pub enum Mark {
    X,
    O,
}

/// The classification of a position.
#[derive(Copy, Clone, Debug, PartialEq, Eq, Structural)]
pub enum GameState {
    InProgress,
    Draw,
    Win(Mark),
}

/// The mark that is not `m`.
pub open spec fn other_mark(m: Mark) -> Mark {
    match m {
        Mark::X => Mark::O,
        Mark::O => Mark::X,
    }
}

/// The mark that owns a line of three cells, if all three hold the same mark.
pub open spec fn line_mark(a: Option<Mark>, b: Option<Mark>, c: Option<Mark>) -> Option<Mark> {
    if a.is_some() && a == b && b == c {
        a
    } else {
        None
    }
}

/// `a` if it is present, else `b`.
pub open spec fn first_of(a: Option<Mark>, b: Option<Mark>) -> Option<Mark> {
    if a.is_some() {
        a
    } else {
        b
    }
}

pub open spec fn in_grid(x: int, y: int) -> bool {
    0 <= x < 3 && 0 <= y < 3
}

/// 1 for an empty cell, 0 for an occupied one.
pub open spec fn empty_weight(c: Option<Mark>) -> nat {
    if c.is_none() {
        1
    } else {
        0
    }
}

/// A position as mathematics sees it: `cells[x][y]` is the cell in column `x`
/// and row `y`, and `to_move` is the mark whose turn it is.
pub struct GameView {
    pub cells: Seq<Seq<Option<Mark>>>,
    pub to_move: Mark,
}

impl GameView {
    /// The grid is three columns of three cells.
    pub open spec fn wf(self) -> bool {
        &&& self.cells.len() == 3
        &&& forall|x: int| 0 <= x < 3 ==> (#[trigger] self.cells[x]).len() == 3
    }

    pub open spec fn cell(self, x: int, y: int) -> Option<Mark> {
        self.cells[x][y]
    }

    /// The empty grid with `m` to move.
    pub open spec fn initial(m: Mark) -> GameView {
        GameView { cells: Seq::new(3, |x: int| Seq::new(3, |y: int| None)), to_move: m }
    }

    /// A move is legal on an empty cell inside the grid.
    pub open spec fn is_legal(self, x: int, y: int) -> bool {
        in_grid(x, y) && self.cell(x, y).is_none()
    }

    pub open spec fn has_legal_move(self) -> bool {
        exists|x: int, y: int| self.is_legal(x, y)
    }

    /// The position after the player to move marks cell `(x, y)`.
    pub open spec fn apply(self, x: int, y: int) -> GameView {
        GameView {
            cells: self.cells.update(x, self.cells[x].update(y, Some(self.to_move))),
            to_move: other_mark(self.to_move),
        }
    }

    pub open spec fn row_mark(self, y: int) -> Option<Mark> {
        line_mark(self.cell(0, y), self.cell(1, y), self.cell(2, y))
    }

    pub open spec fn column_mark(self, x: int) -> Option<Mark> {
        line_mark(self.cell(x, 0), self.cell(x, 1), self.cell(x, 2))
    }

    pub open spec fn main_diagonal_mark(self) -> Option<Mark> {
        line_mark(self.cell(0, 0), self.cell(1, 1), self.cell(2, 2))
    }

    pub open spec fn anti_diagonal_mark(self) -> Option<Mark> {
        line_mark(self.cell(0, 2), self.cell(1, 1), self.cell(2, 0))
    }

    /// The owner of the first complete line: rows top to bottom, then columns
    /// left to right, then the main diagonal, then the anti-diagonal.
    pub open spec fn winner(self) -> Option<Mark> {
        first_of(
            first_of(first_of(self.row_mark(0), self.row_mark(1)), self.row_mark(2)),
            first_of(
                first_of(first_of(self.column_mark(0), self.column_mark(1)), self.column_mark(2)),
                first_of(self.main_diagonal_mark(), self.anti_diagonal_mark()),
            ),
        )
    }

    /// Some line of three cells is all `m`.
    pub open spec fn has_line_of(self, m: Mark) -> bool {
        ||| self.row_mark(0) == Some(m)
        ||| self.row_mark(1) == Some(m)
        ||| self.row_mark(2) == Some(m)
        ||| self.column_mark(0) == Some(m)
        ||| self.column_mark(1) == Some(m)
        ||| self.column_mark(2) == Some(m)
        ||| self.main_diagonal_mark() == Some(m)
        ||| self.anti_diagonal_mark() == Some(m)
    }

    pub open spec fn is_full(self) -> bool {
        forall|x: int, y: int| in_grid(x, y) ==> (#[trigger] self.cell(x, y)).is_some()
    }

    pub open spec fn outcome(self) -> GameState {
        match self.winner() {
            Some(m) => GameState::Win(m),
            None => if self.is_full() {
                GameState::Draw
            } else {
                GameState::InProgress
            },
        }
    }

    pub open spec fn column_empties(self, x: int) -> nat {
        empty_weight(self.cell(x, 0)) + empty_weight(self.cell(x, 1)) + empty_weight(self.cell(x, 2))
    }

    /// The number of empty cells.
    pub open spec fn empties(self) -> nat {
        self.column_empties(0) + self.column_empties(1) + self.column_empties(2)
    }
}

/// A position is in progress exactly when no line of three holds one mark and
/// some cell is still empty.
pub proof fn lemma_in_progress_until_line_or_full(g: GameView)
    requires
        g.wf(),
    ensures
        g.outcome() == GameState::InProgress <==> (!g.has_line_of(Mark::X) && !g.has_line_of(
            Mark::O,
        ) && !g.is_full()),
{
}

/// A move that completes a line for the player to move, in a position where
/// no line was complete yet, wins for that player: whichever line it is, row,
/// column or diagonal.
pub proof fn lemma_completing_line_wins(g: GameView, x: int, y: int)
    requires
        g.wf(),
        g.is_legal(x, y),
        g.winner() is None,
        g.apply(x, y).has_line_of(g.to_move),
    ensures
        g.apply(x, y).outcome() == GameState::Win(g.to_move),
{
}

/// A full grid in which no line of three holds one mark is a draw.
pub proof fn lemma_full_without_line_is_draw(g: GameView)
    requires
        g.wf(),
        g.is_full(),
        !g.has_line_of(Mark::X),
        !g.has_line_of(Mark::O),
    ensures
        g.outcome() == GameState::Draw,
{
}

/// A move hands the turn to the other mark and fills the target cell with the
/// mark of the player who moved; every other cell stays as it was.
pub proof fn lemma_apply_toggles_and_marks(g: GameView, x: int, y: int)
    requires
        g.wf(),
        g.is_legal(x, y),
    ensures
        g.apply(x, y).wf(),
        g.apply(x, y).to_move == other_mark(g.to_move),
        g.apply(x, y).to_move != g.to_move,
        g.apply(x, y).cell(x, y) == Some(g.to_move),
        forall|i: int, j: int|
            in_grid(i, j) && (i != x || j != y) ==> #[trigger] g.apply(x, y).cell(i, j) == g.cell(i, j),
        g.apply(x, y).empties() + 1 == g.empties(),
{
}

/// How a cell is drawn: its mark, or a space.
pub open spec fn mark_text(c: Option<Mark>) -> Seq<char> {
    match c {
        Some(Mark::X) => "X"@,
        Some(Mark::O) => "O"@,
        None => " "@,
    }
}

/// The label of row `y`, padded to two characters.
pub open spec fn row_label(y: int) -> Seq<char> {
    if y == 0 {
        "0 "@
    } else if y == 1 {
        "1 "@
    } else {
        "2 "@
    }
}

pub open spec fn divider_text() -> Seq<char> {
    "---+---+---+---+"@
}

/// The header line: whose turn it is, then the column labels.
pub open spec fn header_text(g: GameView) -> Seq<char> {
    " "@ + mark_text(Some(g.to_move)) + " | 0 | 1 | 2 |"@
}

/// Row `y` of the drawn grid, with the divider under it.
pub open spec fn row_text(g: GameView, y: int) -> Seq<char> {
    " "@ + row_label(y) + "| "@ + mark_text(g.cell(0, y)) + " | "@ + mark_text(g.cell(1, y))
        + " | "@ + mark_text(g.cell(2, y)) + " |\n"@ + divider_text() + "\n"@
}

/// The drawn board: header and divider, then the rows top to bottom.
pub open spec fn board_text(g: GameView) -> Seq<char> {
    header_text(g) + "\n"@ + divider_text() + "\n"@ + row_text(g, 0) + row_text(g, 1) + row_text(
        g,
        2,
    )
}

fn mark_str(c: Option<Mark>) -> (r: &'static str)
    ensures
        r@ == mark_text(c),
{
    match c {
        Some(Mark::X) => "X",
        Some(Mark::O) => "O",
        None => " ",
    }
}

/// A position: a 3x3 grid of cells, each empty or holding a mark, and the mark
/// whose turn it is. Moves produce new positions; none is changed in place.
#[derive(Copy, Clone, Debug)]
pub struct Game {
    grid_cells: [[Option<Mark>; 3]; 3],
    mark: Mark,
}

impl View for Game {
    type V = GameView;

    closed spec fn view(&self) -> GameView {
        GameView {
            cells: Seq::new(3, |x: int| self.grid_cells@[x]@),
            to_move: self.mark,
        }
    }
}

/// The owner of a line of three cells, if one mark fills it.
fn matching(a: Option<Mark>, b: Option<Mark>, c: Option<Mark>) -> (r: Option<Mark>)
    ensures
        r == line_mark(a, b, c),
{
    if a.is_some() && a == b && b == c {
        a
    } else {
        None
    }
}

impl Game {
    /// Every position has a 3x3 grid.
    pub proof fn lemma_wf(&self)
        ensures
            self@.wf(),
    {
    }

    pub fn new(starting_mark: Mark) -> (r: Self)
        ensures
            r@ == GameView::initial(starting_mark),
    {
        let r = Game { grid_cells: [[None, None, None], [None, None, None], [None, None, None]], mark: starting_mark };
        assert(r@.cells =~= GameView::initial(starting_mark).cells) by {
            assert forall|x: int| 0 <= x < 3 implies r@.cells[x] =~= GameView::initial(starting_mark).cells[x] by {}
        }
        r
    }

    pub fn get_mark(&self) -> (r: Mark)
        ensures
            r == self@.to_move,
    {
        self.mark
    }

    pub fn get_cell(&self, x: usize, y: usize) -> (r: Option<Mark>)
        requires
            x < 3,
            y < 3,
        ensures
            r == self@.cell(x as int, y as int),
    {
        self.grid_cells[x][y]
    }

    pub fn apply_move(&self, x: usize, y: usize) -> (r: Self)
        requires
            self@.is_legal(x as int, y as int),
        ensures
            r@ == self@.apply(x as int, y as int),
            r@.wf(),
    {
        let mut new_grid_cells = self.grid_cells;
        let mut column = new_grid_cells[x];
        column[y] = Some(self.mark);
        new_grid_cells[x] = column;
        let mark = match self.mark {
            Mark::X => Mark::O,
            Mark::O => Mark::X,
        };
        let r = Game { grid_cells: new_grid_cells, mark };
        assert(r@.cells =~= self@.apply(x as int, y as int).cells) by {
            assert forall|i: int| 0 <= i < 3 implies r@.cells[i] =~= self@.apply(
                x as int,
                y as int,
            ).cells[i] by {}
        }
        r
    }

    pub fn is_valid_move(&self, x: usize, y: usize) -> (r: bool)
        ensures
            r == self@.is_legal(x as int, y as int),
    {
        x < 3 && y < 3 && self.grid_cells[x][y].is_none()
    }

    pub fn get_game_state(&self) -> (r: GameState)
        ensures
            r == self@.outcome(),
    {
        let g = &self.grid_cells;
        let rows = matching(g[0][0], g[1][0], g[2][0]);
        let rows = if rows.is_some() { rows } else { matching(g[0][1], g[1][1], g[2][1]) };
        let rows = if rows.is_some() { rows } else { matching(g[0][2], g[1][2], g[2][2]) };

        let cols = matching(g[0][0], g[0][1], g[0][2]);
        let cols = if cols.is_some() { cols } else { matching(g[1][0], g[1][1], g[1][2]) };
        let cols = if cols.is_some() { cols } else { matching(g[2][0], g[2][1], g[2][2]) };

        let main_diag = matching(g[0][0], g[1][1], g[2][2]);
        let anti_diag = matching(g[0][2], g[1][1], g[2][0]);

        let found = if rows.is_some() {
            rows
        } else if cols.is_some() {
            cols
        } else if main_diag.is_some() {
            main_diag
        } else {
            anti_diag
        };
        if let Some(mark) = found {
            return GameState::Win(mark);
        }
        if self.is_full() {
            return GameState::Draw;
        }
        GameState::InProgress
    }

    fn render_row(&self, y: usize) -> (r: String)
        requires
            y < 3,
        ensures
            r@ == row_text(self@, y as int),
    {
        let mut r = String::from_str(" ");
        r.append(
            if y == 0 {
                "0 "
            } else if y == 1 {
                "1 "
            } else {
                "2 "
            },
        );
        r.append("| ");
        r.append(mark_str(self.grid_cells[0][y]));
        r.append(" | ");
        r.append(mark_str(self.grid_cells[1][y]));
        r.append(" | ");
        r.append(mark_str(self.grid_cells[2][y]));
        r.append(" |\n");
        r.append("---+---+---+---+");
        r.append("\n");
        r
    }

    /// The board as text: a header with the mark to move and the column
    /// labels, then each row with its label, each line followed by a divider.
    pub fn render(&self) -> (r: String)
        ensures
            r@ == board_text(self@),
    {
        let mut r = String::from_str(" ");
        r.append(mark_str(Some(self.mark)));
        r.append(" | 0 | 1 | 2 |");
        r.append("\n");
        r.append("---+---+---+---+");
        r.append("\n");
        let row = self.render_row(0);
        r.append(row.as_str());
        let row = self.render_row(1);
        r.append(row.as_str());
        let row = self.render_row(2);
        r.append(row.as_str());
        r
    }

    /// Whether every cell holds a mark.
    fn is_full(&self) -> (r: bool)
        ensures
            r == self@.is_full(),
    {
        let mut x: usize = 0;
        while x < 3
            invariant
                x <= 3,
                forall|i: int, j: int| 0 <= i < x && 0 <= j < 3 ==> self@.cell(i, j).is_some(),
            decreases 3 - x,
        {
            let mut y: usize = 0;
            while y < 3
                invariant
                    x < 3,
                    y <= 3,
                    forall|i: int, j: int| 0 <= i < x && 0 <= j < 3 ==> self@.cell(i, j).is_some(),
                    forall|j: int| 0 <= j < y ==> self@.cell(x as int, j).is_some(),
                decreases 3 - y,
            {
                if self.grid_cells[x][y].is_none() {
                    assert(!in_grid(x as int, y as int) || self@.cell(x as int, y as int).is_none());
                    return false;
                }
                y += 1;
            }
            x += 1;
        }
        true
    }
}

} // verus!
