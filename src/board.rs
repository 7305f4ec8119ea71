use vstd::prelude::*;

use crate::color::Color;
use crate::error::GameError;

verus! {

/// One line of cells: a row, a column or a diagonal, in scanning order.
pub type Line = Vec<Option<Color>>;

/// How many empty cells a column has above its first occupied cell.
pub open spec fn empty_run(s: Seq<Option<Color>>) -> nat
    decreases s.len(),
{
    if s.len() == 0 || s[0] is Some {
        0
    } else {
        1 + empty_run(s.drop_first())
    }
}

/// How many cells of a line are occupied.
pub open spec fn occupied_count(s: Seq<Option<Color>>) -> nat
    decreases s.len(),
{
    if s.len() == 0 {
        0
    } else {
        occupied_count(s.drop_last()) + if s.last() is Some { 1nat } else { 0nat }
    }
}

/// How many cells of a line are empty.
pub open spec fn empty_count(s: Seq<Option<Color>>) -> nat
    decreases s.len(),
{
    if s.len() == 0 {
        0
    } else {
        empty_count(s.drop_last()) + if s.last() is None { 1nat } else { 0nat }
    }
}

/// How many cells are empty in the first `n` rows of a grid.
pub open spec fn empty_in_rows(g: Seq<Seq<Option<Color>>>, n: int) -> nat
    decreases n,
{
    if n <= 0 {
        0
    } else {
        empty_in_rows(g, n - 1) + empty_count(g[n - 1])
    }
}

/// A run of `k` equal pieces ends at position `j` of the line.
/// A single piece never makes a run: a threshold below two is never reached.
pub open spec fn run_ends_at(line: Seq<Option<Color>>, j: int, k: int) -> bool {
    &&& 2 <= k <= j + 1
    &&& j < line.len()
    &&& line[j] is Some
    &&& forall|t: int| j + 1 - k <= t <= j ==> line[t] == line[j]
}

/// The color of the first run of `k` that ends at position `j` or later.
pub open spec fn line_winner_from(line: Seq<Option<Color>>, k: int, j: int) -> Option<Color>
    decreases line.len() - j,
{
    if j < 0 || j >= line.len() {
        None
    } else if run_ends_at(line, j, k) {
        line[j]
    } else {
        line_winner_from(line, k, j + 1)
    }
}

/// The color of the first run of `k` equal pieces along a line, if any.
pub open spec fn line_winner(line: Seq<Option<Color>>, k: int) -> Option<Color> {
    line_winner_from(line, k, 0)
}

/// The winner of the first line, from index `i` on, that holds a run of `k`.
pub open spec fn winner_from(lines: Seq<Seq<Option<Color>>>, k: int, i: int) -> Option<Color>
    decreases lines.len() - i,
{
    if i < 0 || i >= lines.len() {
        None
    } else if line_winner(lines[i], k) is Some {
        line_winner(lines[i], k)
    } else {
        winner_from(lines, k, i + 1)
    }
}

/// A column whose first `n` cells are empty and whose cell `n` is occupied
/// (or which ends there) has an empty run of exactly `n`.
proof fn lemma_empty_run_exact(s: Seq<Option<Color>>, n: int)
    requires
        0 <= n <= s.len(),
        forall|t: int| 0 <= t < n ==> s[t] is None,
        n == s.len() || s[n] is Some,
    ensures
        empty_run(s) == n,
    decreases n,
{
    if n > 0 {
        lemma_empty_run_exact(s.drop_first(), n - 1);
    }
}

/// An empty run holds only empty cells, and the cell just after it, if any, is occupied.
proof fn lemma_empty_run_exact_bound(s: Seq<Option<Color>>)
    ensures
        empty_run(s) <= s.len(),
        forall|t: int| 0 <= t < empty_run(s) ==> s[t] is None,
        empty_run(s) < s.len() ==> s[empty_run(s) as int] is Some,
    decreases s.len(),
{
    if s.len() > 0 && s[0] is None {
        lemma_empty_run_exact_bound(s.drop_first());
        if empty_run(s) < s.len() {
            assert(s[empty_run(s) as int] == s.drop_first()[empty_run(s) - 1]);
        }
        assert forall|t: int| 0 <= t < empty_run(s) implies s[t] is None by {
            if t > 0 {
                assert(s[t] == s.drop_first()[t - 1]);
            }
        }
    }
}

/// Filling one empty cell of a line leaves one empty cell fewer.
proof fn lemma_empty_count_fill(s: Seq<Option<Color>>, j: int, x: Color)
    requires
        0 <= j < s.len(),
        s[j] is None,
    ensures
        empty_count(s.update(j, Some(x))) + 1 == empty_count(s),
    decreases s.len(),
{
    let u = s.update(j, Some(x));
    if j == s.len() - 1 {
        assert(u.drop_last() =~= s.drop_last());
    } else {
        assert(u.drop_last() =~= s.drop_last().update(j, Some(x)));
        lemma_empty_count_fill(s.drop_last(), j, x);
    }
}

/// Filling one empty cell of a grid leaves one empty cell fewer among the rows that hold it.
proof fn lemma_empty_in_rows_fill(g: Seq<Seq<Option<Color>>>, r: int, c: int, x: Color, n: int)
    requires
        0 <= r < g.len(),
        0 <= c < g[r].len(),
        g[r][c] is None,
        0 <= n <= g.len(),
    ensures
        empty_in_rows(g.update(r, g[r].update(c, Some(x))), n) + (if r < n { 1int } else { 0int })
            == empty_in_rows(g, n),
    decreases n,
{
    if n > 0 {
        lemma_empty_in_rows_fill(g, r, c, x, n - 1);
        if r == n - 1 {
            lemma_empty_count_fill(g[r], c, x);
        }
    }
}

/// A line filled from its end has as many occupied cells as it has cells below its empty run.
proof fn lemma_settled_column(s: Seq<Option<Color>>)
    requires
        forall|a: int, b: int| 0 <= a < b < s.len() && s[a] is Some ==> s[b] is Some,
    ensures
        empty_run(s) + occupied_count(s) == s.len(),
    decreases s.len(),
{
    if s.len() > 0 {
        if s[0] is Some {
            lemma_all_occupied(s);
        } else {
            let t = s.drop_first();
            assert forall|a: int, b: int| 0 <= a < b < t.len() && t[a] is Some implies t[b] is Some by {
                assert(s[a + 1] is Some);
            }
            lemma_settled_column(t);
            lemma_occupied_first_empty(s);
        }
    }
}

/// A line filled from its end whose first cell is occupied is occupied throughout.
proof fn lemma_all_occupied(s: Seq<Option<Color>>)
    requires
        s.len() > 0,
        s[0] is Some,
        forall|a: int, b: int| 0 <= a < b < s.len() && s[a] is Some ==> s[b] is Some,
    ensures
        occupied_count(s) == s.len(),
    decreases s.len(),
{
    if s.len() > 1 {
        let t = s.drop_last();
        assert forall|a: int, b: int| 0 <= a < b < t.len() && t[a] is Some implies t[b] is Some by {
            assert(s[b] is Some);
        }
        lemma_all_occupied(t);
        assert(s[s.len() - 1] is Some);
    } else {
        assert(occupied_count(s.drop_last()) == 0);
    }
}

/// An empty first cell does not count among the occupied ones.
proof fn lemma_occupied_first_empty(s: Seq<Option<Color>>)
    requires
        s.len() > 0,
        s[0] is None,
    ensures
        occupied_count(s) == occupied_count(s.drop_first()),
    decreases s.len(),
{
    if s.len() > 1 {
        lemma_occupied_first_empty(s.drop_last());
        assert(s.drop_last().drop_first() =~= s.drop_first().drop_last());
        assert(s.drop_first().last() == s.last());
    } else {
        assert(occupied_count(s.drop_last()) == 0);
        assert(occupied_count(s.drop_first()) == 0);
    }
}

/// The color of the first run of `amount_to_win` equal pieces along `line`.
/// The scan keeps the color of the current run and its length; an empty
/// cell ends the run, a piece of another color starts a new one.
fn check_line(line: &Line, amount_to_win: usize) -> (r: Option<Color>)
    ensures
        r == line_winner(line@, amount_to_win as int),
{
    let ghost k = amount_to_win as int;
    let mut current: Option<Color> = None;
    let mut count: usize = 0;
    let mut i: usize = 0;
    while i < line.len()
        invariant
            k == amount_to_win,
            i <= line@.len(),
            count <= i,
            k >= 2 ==> count < k,
            count == 0 <==> current is None,
            count > 0 ==> forall|t: int| i - count <= t < i ==> line@[t] == current,
            count > 0 && i - count > 0 ==> line@[i - count - 1] != current,
            count == 0 && i > 0 ==> line@[i - 1] is None,
            line_winner(line@, k) == line_winner_from(line@, k, i as int),
        decreases line@.len() - i,
    {
        let item = line[i];
        match item {
            None => {
                assert(!run_ends_at(line@, i as int, k));
                current = None;
                count = 0;
            },
            Some(color) => {
                let same = match current {
                    Some(c) => c == color,
                    None => false,
                };
                if same {
                    assert(current == line@[i as int]);
                    if count + 1 == amount_to_win {
                        assert forall|t: int| i + 1 - k <= t <= i implies line@[t] == line@[i as int] by {
                            if t < i {
                                assert(i - count <= t);
                            }
                        }
                        assert(run_ends_at(line@, i as int, k));
                        return current;
                    }
                    assert(!run_ends_at(line@, i as int, k)) by {
                        if k >= 2 && k <= i + 1 {
                            assert(count + 1 < k);
                            assert(i - count > 0);
                            let t = i - count - 1;
                            assert(line@[t] != line@[i as int]);
                            assert(i + 1 - k <= t <= i);
                        }
                    }
                    count = count + 1;
                } else {
                    assert(!run_ends_at(line@, i as int, k)) by {
                        if k >= 2 && k <= i + 1 {
                            assert(line@[i - 1] != line@[i as int]);
                        }
                    }
                    current = item;
                    count = 1;
                }
            },
        }
        i += 1;
    }
    None
}

/// Where columns are filled from the bottom up, a piece dropped into an
/// available column comes to rest on the row just above the pieces already
/// in it: `num_rows - occupied - 1`.
pub proof fn lemma_landing_above_pieces(b: Board, c: int)
    requires
        b.wf(),
        b.settled(),
        b.available(c),
    ensures
        b.landing_row(c) == b.num_rows - occupied_count(b.column(c)) - 1,
{
    let col = b.column(c);
    assert forall|r1: int, r2: int| 0 <= r1 < r2 < col.len() && col[r1] is Some implies col[r2] is Some by {
        assert(col[r1] == b.cell(r1, c));
        assert(col[r2] == b.cell(r2, c));
    }
    lemma_settled_column(col);
}

/// The columns below `n` that can take a piece, in increasing order.
pub open spec fn available_below(b: Board, n: int) -> Seq<usize>
    decreases n,
{
    if n <= 0 {
        Seq::empty()
    } else if b.available(n - 1) {
        available_below(b, n - 1).push((n - 1) as usize)
    } else {
        available_below(b, n - 1)
    }
}

/// The columns of the board that can take a piece, in increasing order.
pub open spec fn available_columns_of(b: Board) -> Seq<usize> {
    available_below(b, b.num_columns as int)
}

/// The listed columns are available and below `n`, and the list is empty exactly when none is.
proof fn lemma_available_below(b: Board, n: int)
    requires
        0 <= n,
    ensures
        forall|i: int| 0 <= i < available_below(b, n).len() ==> {
            let c = #[trigger] available_below(b, n)[i];
            c < n && b.available(c as int)
        },
        available_below(b, n).len() == 0 <==> forall|c: int| 0 <= c < n ==> !#[trigger] b.available(c),
    decreases n,
{
    if n > 0 {
        lemma_available_below(b, n - 1);
        if !b.available(n - 1) {
            assert forall|c: int| 0 <= c < n && available_below(b, n).len() == 0 implies !#[trigger] b.available(c) by {
                if c < n - 1 {
                }
            }
        }
    }
}

/// `after` is `before` with some of its cells now holding `x`.
pub open spec fn filled_with(before: Seq<Option<Color>>, after: Seq<Option<Color>>, x: Color) -> bool {
    &&& after.len() == before.len()
    &&& forall|t: int| 0 <= t < before.len() ==> #[trigger] after[t] == before[t] || after[t] == Some(x)
}

/// Filling cells of a line with `x` makes no run of another color.
proof fn lemma_line_winner_filled(l: Seq<Option<Color>>, l2: Seq<Option<Color>>, x: Color, k: int, j: int)
    requires
        filled_with(l, l2, x),
        line_winner_from(l, k, j) is None,
    ensures
        line_winner_from(l2, k, j) is None || line_winner_from(l2, k, j) == Some(x),
    decreases l.len() - j,
{
    if 0 <= j < l.len() {
        if run_ends_at(l2, j, k) {
            if l2[j] != Some(x) {
                assert forall|t: int| j + 1 - k <= t <= j implies l[t] == l[j] by {
                    assert(l2[t] == l2[j]);
                }
                assert(run_ends_at(l, j, k));
            }
        } else {
            lemma_line_winner_filled(l, l2, x, k, j + 1);
        }
    }
}

/// Filling cells of the scanned lines with `x` makes no run of another color.
proof fn lemma_winner_filled(ls: Seq<Seq<Option<Color>>>, ls2: Seq<Seq<Option<Color>>>, x: Color, k: int, i: int)
    requires
        ls2.len() == ls.len(),
        forall|n: int| 0 <= n < ls.len() ==> filled_with(#[trigger] ls[n], ls2[n], x),
        winner_from(ls, k, i) is None,
    ensures
        winner_from(ls2, k, i) is None || winner_from(ls2, k, i) == Some(x),
    decreases ls.len() - i,
{
    if 0 <= i < ls.len() {
        lemma_line_winner_filled(ls[i], ls2[i], x, k, 0);
        lemma_winner_filled(ls, ls2, x, k, i + 1);
    }
}

/// A drop of a piece of `x` onto a board without a run makes a run of `x` or none.
pub proof fn lemma_drop_wins_for_mover(b: Board, b2: Board, x: Color, k: int)
    requires
        b.wf(),
        b.drops_to(b2, x),
        b.winner(k) is None,
    ensures
        b2.winner(k) is None || b2.winner(k) == Some(x),
{
    let c = choose|c: int| b.available(c) && b2.grid() == #[trigger] b.drop_grid(c, x);
    lemma_empty_run_exact_bound(b.column(c));
    assert(b.column(c)[0] == b.cell(0, c));
    assert(0 <= b.landing_row(c) < b.num_rows);
    assert forall|i: int, j: int| 0 <= i < b.num_rows && 0 <= j < b.num_columns implies
        #[trigger] b2.cell(i, j) == b.cell(i, j) || b2.cell(i, j) == Some(x) by {
        assert(b2.cell(i, j) == b2.grid()[i][j]);
        assert(b.cell(i, j) == b.grid()[i][j]);
        let row = b.landing_row(c);
        if i == row {
            assert(b2.grid()[i] == b.grid()[row].update(c, Some(x)));
        } else {
            assert(b2.grid()[i] == b.grid()[i]);
        }
    }
    let ls = b.lines();
    let ls2 = b2.lines();
    let nr = b.num_rows as int;
    let nc = b.num_columns as int;
    assert forall|n: int| 0 <= n < ls.len() implies filled_with(#[trigger] ls[n], ls2[n], x) by {
        if n < nr {
            assert forall|t: int| 0 <= t < ls[n].len() implies #[trigger] ls2[n][t] == ls[n][t] || ls2[n][t] == Some(x) by {
                assert(ls[n][t] == b.cell(n, t));
                assert(ls2[n][t] == b2.cell(n, t));
            }
        } else if n < nr + nc {
            assert forall|t: int| 0 <= t < ls[n].len() implies #[trigger] ls2[n][t] == ls[n][t] || ls2[n][t] == Some(x) by {
                assert(ls[n][t] == b.cell(t, n - nr));
                assert(ls2[n][t] == b2.cell(t, n - nr));
            }
        } else {
            let m = n - nr - nc;
            let d = m / 2;
            let s = b.diagonal_start(d);
            if m % 2 == 0 {
                assert forall|t: int| 0 <= t < ls[n].len() implies #[trigger] ls2[n][t] == ls[n][t] || ls2[n][t] == Some(x) by {
                    assert(ls[n][t] == b.cell(s + t, s + t - d + nc - 1));
                    assert(ls2[n][t] == b2.cell(s + t, s + t - d + nc - 1));
                }
            } else {
                assert forall|t: int| 0 <= t < ls[n].len() implies #[trigger] ls2[n][t] == ls[n][t] || ls2[n][t] == Some(x) by {
                    assert(ls[n][t] == b.cell(s + t, d - s - t));
                    assert(ls2[n][t] == b2.cell(s + t, d - s - t));
                }
            }
        }
    }
    lemma_winner_filled(ls, ls2, x, k, 0);
}

/// The game board: a grid of `num_rows` rows of `num_columns` cells each.
/// Row 0 is the top; pieces fall towards the highest row index.
#[derive(Debug, PartialEq)]
pub struct Board {
    /// The rows of the board, top first.
    pub data: Vec<Line>,
    /// The number of rows in the board.
    pub num_rows: usize,
    /// The number of columns in the board.
    pub num_columns: usize,
    /// The width in characters of each drawn column.
    pub column_width: usize,
    /// The height in lines of each drawn row.
    pub row_height: usize,
}

impl Board {
    /// The grid has the declared dimensions, and they fit in a machine word together.
    pub open spec fn wf(self) -> bool {
        &&& self.data@.len() == self.num_rows
        &&& forall|r: int| 0 <= r < self.num_rows ==> (#[trigger] self.data@[r])@.len() == self.num_columns
        &&& self.num_rows + self.num_columns <= usize::MAX
    }

    /// The grid as rows of cells.
    pub open spec fn grid(self) -> Seq<Seq<Option<Color>>> {
        self.data@.map_values(|row: Line| row@)
    }

    pub open spec fn cell(self, r: int, c: int) -> Option<Color> {
        self.data@[r]@[c]
    }

    pub open spec fn row(self, r: int) -> Seq<Option<Color>> {
        self.data@[r]@
    }

    /// The cells of column `c`, top first.
    pub open spec fn column(self, c: int) -> Seq<Option<Color>> {
        Seq::new(self.num_rows as nat, |r: int| self.cell(r, c))
    }

    /// A piece can be dropped into column `c`: it exists and its top cell is empty.
    pub open spec fn available(self, c: int) -> bool {
        &&& 0 <= c < self.num_columns
        &&& self.num_rows > 0
        &&& self.cell(0, c) is None
    }

    /// The row where a piece dropped into column `c` comes to rest: the last
    /// empty cell above the first occupied one, or the bottom row.
    pub open spec fn landing_row(self, c: int) -> int {
        empty_run(self.column(c)) - 1
    }

    /// The grid after a piece of `x` comes to rest in column `c`.
    pub open spec fn drop_grid(self, c: int, x: Color) -> Seq<Seq<Option<Color>>> {
        self.grid().update(self.landing_row(c), self.grid()[self.landing_row(c)].update(c, Some(x)))
    }

    /// `next` is this board with one more piece of `x`, dropped into some available column.
    pub open spec fn drops_to(self, next: Board, x: Color) -> bool {
        &&& next.wf()
        &&& next.num_rows == self.num_rows
        &&& next.num_columns == self.num_columns
        &&& next.row_height == self.row_height
        &&& next.column_width == self.column_width
        &&& exists|c: int| self.available(c) && next.grid() == #[trigger] self.drop_grid(c, x)
    }

    /// No column can take another piece.
    pub open spec fn full(self) -> bool {
        forall|c: int| 0 <= c < self.num_columns ==> !#[trigger] self.available(c)
    }

    /// Every column is filled from the bottom up: below an occupied cell all cells are occupied.
    pub open spec fn settled(self) -> bool {
        forall|c: int, r1: int, r2: int|
            0 <= c < self.num_columns && 0 <= r1 < r2 < self.num_rows
                && (#[trigger] self.cell(r1, c)) is Some ==> (#[trigger] self.cell(r2, c)) is Some
    }

    /// The number of empty cells on the board.
    pub open spec fn empty_cells(self) -> nat {
        empty_in_rows(self.grid(), self.num_rows as int)
    }

    /// The first row of the diagonals with index `d`.
    pub open spec fn diagonal_start(self, d: int) -> int {
        if d + 1 - self.num_columns > 0 { d + 1 - self.num_columns } else { 0 }
    }

    /// One past the last row of the diagonals with index `d`.
    pub open spec fn diagonal_end(self, d: int) -> int {
        if d + 1 < self.num_rows { d + 1 } else { self.num_rows as int }
    }

    pub open spec fn diagonal_len(self, d: int) -> nat {
        if self.diagonal_end(d) > self.diagonal_start(d) {
            (self.diagonal_end(d) - self.diagonal_start(d)) as nat
        } else {
            0
        }
    }

    /// The left-leaning diagonal `d`: the cells `(r, r - d + num_columns - 1)`, top first.
    pub open spec fn left_diagonal(self, d: int) -> Seq<Option<Color>> {
        Seq::new(
            self.diagonal_len(d),
            |i: int| self.cell(self.diagonal_start(d) + i, self.diagonal_start(d) + i - d + self.num_columns - 1),
        )
    }

    /// The right-leaning diagonal `d`: the cells `(r, d - r)`, top first.
    pub open spec fn right_diagonal(self, d: int) -> Seq<Option<Color>> {
        Seq::new(
            self.diagonal_len(d),
            |i: int| self.cell(self.diagonal_start(d) + i, d - self.diagonal_start(d) - i),
        )
    }

    /// How many diagonals there are in each direction.
    pub open spec fn num_diagonals(self) -> nat {
        if self.num_rows + self.num_columns > 0 {
            (self.num_rows + self.num_columns - 1) as nat
        } else {
            0
        }
    }

    /// Every line that is scanned for runs, in scanning order: the rows, then
    /// the columns, then for each diagonal index its left and right diagonals.
    pub open spec fn lines(self) -> Seq<Seq<Option<Color>>> {
        Seq::new(self.num_rows as nat, |r: int| self.row(r))
            + Seq::new(self.num_columns as nat, |c: int| self.column(c))
            + Seq::new(
                2 * self.num_diagonals(),
                |i: int| if i % 2 == 0 { self.left_diagonal(i / 2) } else { self.right_diagonal(i / 2) },
            )
    }

    /// The color of the first run of `k` found along the scanned lines, if any.
    pub open spec fn winner(self, k: int) -> Option<Color> {
        winner_from(self.lines(), k, 0)
    }

    /// Builds an empty board.
    pub fn new(num_rows: usize, num_columns: usize, row_height: usize, column_width: usize) -> (b: Self)
        requires
            num_rows + num_columns <= usize::MAX,
        ensures
            b.wf(),
            b.num_rows == num_rows,
            b.num_columns == num_columns,
            b.row_height == row_height,
            b.column_width == column_width,
            b.settled(),
            forall|r: int, c: int| 0 <= r < num_rows && 0 <= c < num_columns ==> b.cell(r, c) is None,
    {
        let mut data: Vec<Line> = Vec::new();
        let mut r: usize = 0;
        while r < num_rows
            invariant
                r <= num_rows,
                data@.len() == r,
                forall|i: int| 0 <= i < r ==> (#[trigger] data@[i])@.len() == num_columns,
                forall|i: int, c: int| 0 <= i < r && 0 <= c < num_columns ==> data@[i]@[c] is None,
            decreases num_rows - r,
        {
            let mut row: Line = Vec::new();
            let mut c: usize = 0;
            while c < num_columns
                invariant
                    c <= num_columns,
                    row@.len() == c,
                    forall|j: int| 0 <= j < c ==> row@[j] is None,
                decreases num_columns - c,
            {
                row.push(None);
                c += 1;
            }
            data.push(row);
            r += 1;
        }
        Board { data, num_rows, num_columns, row_height, column_width }
    }

    /// Whether a piece can be dropped into column `col_index`.
    pub fn available_column(&self, col_index: usize) -> (r: bool)
        requires
            self.wf(),
        ensures
            r == self.available(col_index as int),
    {
        if col_index >= self.num_columns || self.num_rows == 0 {
            return false;
        }
        self.data[0][col_index].is_none()
    }

    /// The row where a piece dropped into an available column comes to rest.
    fn get_highest_index(&self, col_index: usize) -> (r: usize)
        requires
            self.wf(),
            self.available(col_index as int),
        ensures
            r == self.landing_row(col_index as int),
            r < self.num_rows,
    {
        let mut highest: usize = 0;
        let mut row_index: usize = 0;
        while row_index < self.num_rows
            invariant_except_break
                self.wf(),
                self.available(col_index as int),
                row_index <= self.num_rows,
                forall|t: int| 0 <= t < row_index ==> self.cell(t, col_index as int) is None,
                row_index > 0 ==> highest == row_index - 1,
            ensures
                row_index > 0,
                row_index <= self.num_rows,
                highest == row_index - 1,
                forall|t: int| 0 <= t < row_index ==> self.cell(t, col_index as int) is None,
                row_index == self.num_rows || self.cell(row_index as int, col_index as int) is Some,
            decreases self.num_rows - row_index,
        {
            if self.data[row_index][col_index].is_some() {
                break;
            }
            highest = row_index;
            row_index += 1;
        }
        proof {
            lemma_empty_run_exact(self.column(col_index as int), row_index as int);
        }
        highest
    }

    /// Drops a piece of `color` into column `col_index`. It comes to rest on
    /// the highest occupied cell of the column, or on the bottom row.
    /// A column that is out of range or full is refused, and the board is left as it was.
    pub fn drop_piece(&mut self, color: Color, col_index: usize) -> (r: Result<(), GameError>)
        requires
            old(self).wf(),
        ensures
            final(self).wf(),
            final(self).num_rows == old(self).num_rows,
            final(self).num_columns == old(self).num_columns,
            final(self).row_height == old(self).row_height,
            final(self).column_width == old(self).column_width,
            r is Ok <==> old(self).available(col_index as int),
            r is Err ==> r == Err::<(), GameError>(GameError::InvalidColumn) && *final(self) == *old(self),
            r is Ok ==> ({
                let row = old(self).landing_row(col_index as int);
                &&& 0 <= row < old(self).num_rows
                &&& old(self).cell(row, col_index as int) is None
                &&& final(self).grid() == old(self).drop_grid(col_index as int, color)
            }),
            r is Ok ==> old(self).drops_to(*final(self), color),
            forall|i: int, j: int|
                0 <= i < old(self).num_rows && 0 <= j < old(self).num_columns && old(self).cell(i, j) is Some
                    ==> #[trigger] final(self).cell(i, j) == old(self).cell(i, j),
            r is Ok && old(self).settled() ==> old(self).landing_row(col_index as int)
                == old(self).num_rows - occupied_count(old(self).column(col_index as int)) - 1,
            r is Ok ==> final(self).empty_cells() + 1 == old(self).empty_cells(),
            old(self).settled() ==> final(self).settled(),
    {
        if !self.available_column(col_index) {
            return Err(GameError::InvalidColumn);
        }
        let row_index = self.get_highest_index(col_index);
        let ghost before = *self;
        proof {
            if before.settled() {
                lemma_landing_above_pieces(before, col_index as int);
            }
        }
        proof {
            lemma_empty_run_exact_bound(before.column(col_index as int));
            assert(before.column(col_index as int)[row_index as int] == before.cell(row_index as int, col_index as int));
        }
        self.data[row_index][col_index] = Some(color);
        proof {
            assert(self.grid()[row_index as int] =~= before.grid()[row_index as int].update(col_index as int, Some(color)));
            assert(self.grid() =~= before.grid().update(
                row_index as int,
                before.grid()[row_index as int].update(col_index as int, Some(color)),
            ));
            assert(before.grid()[row_index as int][col_index as int] is None);
            assert(self.grid() == before.drop_grid(col_index as int, color));
            assert forall|i: int, j: int|
                0 <= i < before.num_rows && 0 <= j < before.num_columns && before.cell(i, j) is Some
                    implies #[trigger] self.cell(i, j) == before.cell(i, j) by {
                assert(self.cell(i, j) == self.grid()[i][j]);
                assert(before.cell(i, j) == before.grid()[i][j]);
            }
            lemma_empty_in_rows_fill(before.grid(), row_index as int, col_index as int, color, before.num_rows as int);
            if before.settled() {
                let col = before.column(col_index as int);
                assert forall|c: int, r1: int, r2: int|
                    0 <= c < self.num_columns && 0 <= r1 < r2 < self.num_rows
                        && (#[trigger] self.cell(r1, c)) is Some implies (#[trigger] self.cell(r2, c)) is Some by {
                    assert(self.cell(r1, c) == self.grid()[r1][c]);
                    assert(self.cell(r2, c) == self.grid()[r2][c]);
                    if c == col_index && r2 != row_index {
                        assert(col[r2] == before.cell(r2, c));
                        if r1 == row_index {
                            assert(col[r1 + 1] is Some);
                            assert(col[r1 + 1] == before.cell(r1 + 1, c));
                            if r2 > r1 + 1 {
                                assert(before.cell(r1 + 1, c) is Some);
                            }
                        } else {
                            assert(col[r1] == before.cell(r1, c));
                            assert(before.cell(r1, c) is Some);
                        }
                    } else if c != col_index {
                        assert(before.cell(r1, c) is Some);
                    }
                }
            }
        }
        Ok(())
    }

    /// Whether no column can take another piece.
    pub fn is_full(&self) -> (r: bool)
        requires
            self.wf(),
        ensures
            r == self.full(),
    {
        if self.num_rows == 0 {
            return true;
        }
        let mut c: usize = 0;
        while c < self.num_columns
            invariant
                self.wf(),
                self.num_rows > 0,
                c <= self.num_columns,
                forall|j: int| 0 <= j < c ==> !#[trigger] self.available(j),
            decreases self.num_columns - c,
        {
            if self.data[0][c].is_none() {
                assert(self.available(c as int));
                return false;
            }
            c += 1;
        }
        true
    }

    /// The cells of row `row_index`, left to right.
    fn get_row(&self, row_index: usize) -> (r: Line)
        requires
            self.wf(),
            row_index < self.num_rows,
        ensures
            r@ == self.row(row_index as int),
    {
        let mut line: Line = Vec::new();
        let mut c: usize = 0;
        while c < self.num_columns
            invariant
                self.wf(),
                row_index < self.num_rows,
                c <= self.num_columns,
                line@ =~= self.row(row_index as int).take(c as int),
            decreases self.num_columns - c,
        {
            line.push(self.data[row_index][c]);
            c += 1;
        }
        line
    }

    /// The cells of column `col_index`, top first.
    fn get_column(&self, col_index: usize) -> (r: Line)
        requires
            self.wf(),
            col_index < self.num_columns,
        ensures
            r@ == self.column(col_index as int),
    {
        let mut line: Line = Vec::new();
        let mut r: usize = 0;
        while r < self.num_rows
            invariant
                self.wf(),
                col_index < self.num_columns,
                r <= self.num_rows,
                line@ =~= self.column(col_index as int).take(r as int),
            decreases self.num_rows - r,
        {
            line.push(self.data[r][col_index]);
            r += 1;
        }
        line
    }

    /// The rows that the diagonals with index `diag_index` cross: from the first to one past the last.
    fn diagonal_rows(&self, diag_index: usize) -> (r: (usize, usize))
        requires
            self.wf(),
            diag_index < self.num_rows + self.num_columns,
        ensures
            r.0 == self.diagonal_start(diag_index as int),
            r.1 == self.diagonal_end(diag_index as int),
    {
        let start = if diag_index + 1 > self.num_columns { diag_index + 1 - self.num_columns } else { 0 };
        let end = if diag_index + 1 < self.num_rows { diag_index + 1 } else { self.num_rows };
        (start, end)
    }

    /// The left-leaning diagonal with index `diag_index`, counted from the top right.
    fn get_left_diagonal(&self, diag_index: usize) -> (r: Line)
        requires
            self.wf(),
            diag_index < self.num_rows + self.num_columns,
        ensures
            r@ == self.left_diagonal(diag_index as int),
    {
        let (start, end) = self.diagonal_rows(diag_index);
        let mut line: Line = Vec::new();
        let mut r: usize = start;
        while r < end
            invariant
                self.wf(),
                diag_index < self.num_rows + self.num_columns,
                start == self.diagonal_start(diag_index as int),
                end == self.diagonal_end(diag_index as int),
                start <= r,
                r <= end || end <= start,
                end <= start ==> r == start,
                line@ =~= self.left_diagonal(diag_index as int).take(r - start),
            decreases end - r,
        {
            line.push(self.data[r][r + self.num_columns - 1 - diag_index]);
            r += 1;
        }
        line
    }

    /// The right-leaning diagonal with index `diag_index`, counted from the top left.
    fn get_right_diagonal(&self, diag_index: usize) -> (r: Line)
        requires
            self.wf(),
            diag_index < self.num_rows + self.num_columns,
        ensures
            r@ == self.right_diagonal(diag_index as int),
    {
        let (start, end) = self.diagonal_rows(diag_index);
        let mut line: Line = Vec::new();
        let mut r: usize = start;
        while r < end
            invariant
                self.wf(),
                diag_index < self.num_rows + self.num_columns,
                start == self.diagonal_start(diag_index as int),
                end == self.diagonal_end(diag_index as int),
                start <= r,
                r <= end || end <= start,
                end <= start ==> r == start,
                line@ =~= self.right_diagonal(diag_index as int).take(r - start),
            decreases end - r,
        {
            line.push(self.data[r][diag_index - r]);
            r += 1;
        }
        line
    }

    /// Every scanned line, in scanning order.
    fn get_lines(&self) -> (r: Vec<Line>)
        requires
            self.wf(),
        ensures
            r@.len() == self.lines().len(),
            forall|i: int| 0 <= i < r@.len() ==> (#[trigger] r@[i])@ == self.lines()[i],
    {
        let ghost all = self.lines();
        let mut lines: Vec<Line> = Vec::new();
        let mut r: usize = 0;
        while r < self.num_rows
            invariant
                self.wf(),
                all == self.lines(),
                r <= self.num_rows,
                lines@.len() == r,
                forall|i: int| 0 <= i < lines@.len() ==> (#[trigger] lines@[i])@ == all[i],
            decreases self.num_rows - r,
        {
            lines.push(self.get_row(r));
            r += 1;
        }
        let mut c: usize = 0;
        while c < self.num_columns
            invariant
                self.wf(),
                all == self.lines(),
                c <= self.num_columns,
                lines@.len() == self.num_rows + c,
                forall|i: int| 0 <= i < lines@.len() ==> (#[trigger] lines@[i])@ == all[i],
            decreases self.num_columns - c,
        {
            lines.push(self.get_column(c));
            c += 1;
        }
        let num_diagonals: usize = if self.num_rows + self.num_columns > 0 {
            self.num_rows + self.num_columns - 1
        } else {
            0
        };
        let mut d: usize = 0;
        while d < num_diagonals
            invariant
                self.wf(),
                all == self.lines(),
                num_diagonals == self.num_diagonals(),
                d <= num_diagonals,
                lines@.len() == self.num_rows + self.num_columns + 2 * d,
                forall|i: int| 0 <= i < lines@.len() ==> (#[trigger] lines@[i])@ == all[i],
            decreases num_diagonals - d,
        {
            lines.push(self.get_left_diagonal(d));
            lines.push(self.get_right_diagonal(d));
            d += 1;
        }
        lines
    }

    /// The color of the first run of `amount_to_win` equal pieces found along
    /// the rows, then the columns, then the diagonals; `None` where there is none.
    pub fn get_winning_color(&self, amount_to_win: usize) -> (r: Option<Color>)
        requires
            self.wf(),
        ensures
            r == self.winner(amount_to_win as int),
    {
        let lines = self.get_lines();
        let ghost all = self.lines();
        assert(lines@.map_values(|l: Line| l@) =~= all);
        let mut i: usize = 0;
        while i < lines.len()
            invariant
                all == self.lines(),
                lines@.len() == all.len(),
                forall|j: int| 0 <= j < lines@.len() ==> (#[trigger] lines@[j])@ == all[j],
                i <= lines@.len(),
                winner_from(all, amount_to_win as int, 0) == winner_from(all, amount_to_win as int, i as int),
            decreases lines@.len() - i,
        {
            let found = check_line(&lines[i], amount_to_win);
            assert(lines@[i as int]@ == all[i as int]);
            if found.is_some() {
                return found;
            }
            i += 1;
        }
        None
    }

    /// The columns that can take a piece, in increasing order.
    pub fn available_columns(&self) -> (r: Vec<usize>)
        requires
            self.wf(),
        ensures
            r@ == available_columns_of(*self),
            forall|i: int| 0 <= i < r@.len() ==> #[trigger] self.available(r@[i] as int),
            r@.len() == 0 <==> self.full(),
    {
        let mut cols: Vec<usize> = Vec::new();
        let mut c: usize = 0;
        while c < self.num_columns
            invariant
                self.wf(),
                c <= self.num_columns,
                cols@ == available_below(*self, c as int),
            decreases self.num_columns - c,
        {
            if self.available_column(c) {
                cols.push(c);
            }
            c += 1;
        }
        proof {
            lemma_available_below(*self, self.num_columns as int);
        }
        cols
    }
}

} // verus!
