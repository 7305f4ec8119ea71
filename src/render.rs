use vstd::prelude::*;

use crate::board::Board;
use crate::color::{color_label, Color};
use crate::error::GameError;

verus! {

/// `p` written `n` times in a row.
pub open spec fn repeated(p: Seq<char>, n: nat) -> Seq<char>
    decreases n,
{
    if n == 0 {
        Seq::empty()
    } else {
        repeated(p, (n - 1) as nat) + p
    }
}

/// A cell drawn `w` characters wide: blank, or the color's name centred,
/// with the odd space of padding on the right.
pub open spec fn cell_text(cell: Option<Color>, w: nat) -> Seq<char> {
    match cell {
        None => repeated(seq![' '], w),
        Some(c) => {
            let rem = (w - color_label(c).len()) as nat;
            repeated(seq![' '], rem / 2) + color_label(c) + repeated(seq![' '], (rem - rem / 2) as nat)
        },
    }
}

/// The first `n` cells of a row, each followed by a bar, after an opening bar.
pub open spec fn row_text(row: Seq<Option<Color>>, w: nat, n: int) -> Seq<char>
    decreases n,
{
    if n <= 0 {
        seq!['|']
    } else {
        row_text(row, w, n - 1) + cell_text(row[n - 1], w) + seq!['|']
    }
}

impl Board {
    /// Every occupied cell's color name fits in a drawn column.
    pub open spec fn labels_fit(self) -> bool {
        forall|r: int, c: int|
            0 <= r < self.num_rows && 0 <= c < self.num_columns && (#[trigger] self.cell(r, c)) is Some
                ==> color_label(self.cell(r, c)->0).len() <= self.column_width
    }

    /// The drawn width of the board fits in a machine word.
    pub open spec fn drawable(self) -> bool {
        self.num_columns * self.column_width + self.num_columns + 1 <= usize::MAX
    }

    /// The line of dashes above, between and below the rows.
    pub open spec fn border(self) -> Seq<char> {
        repeated(seq!['-'], (self.num_columns * self.column_width + self.num_columns + 1) as nat)
    }

    /// A line of empty columns, without its line break.
    pub open spec fn blank_line(self) -> Seq<char> {
        seq!['|'] + repeated(repeated(seq![' '], self.column_width as nat) + seq!['|'], self.num_columns as nat)
    }

    /// Blank lines above the one with the pieces in each drawn row.
    pub open spec fn pad_above(self) -> nat {
        if self.row_height == 0 { 0 } else { ((self.row_height - 1) / 2) as nat }
    }

    /// Blank lines below the one with the pieces in each drawn row.
    pub open spec fn pad_below(self) -> nat {
        if self.row_height == 0 { 0 } else { (self.row_height - 1 - (self.row_height - 1) / 2) as nat }
    }

    /// Row `r` as drawn, with the line break before it and the border below it.
    pub open spec fn row_block(self, r: int) -> Seq<char> {
        seq!['\n'] + repeated(self.blank_line() + seq!['\n'], self.pad_above())
            + row_text(self.row(r), self.column_width as nat, self.num_columns as int) + seq!['\n']
            + repeated(self.blank_line() + seq!['\n'], self.pad_below()) + self.border()
    }

    /// The top border followed by the first `n` rows as drawn.
    pub open spec fn rendered_rows(self, n: int) -> Seq<char>
        decreases n,
    {
        if n <= 0 {
            self.border()
        } else {
            self.rendered_rows(n - 1) + self.row_block(n - 1)
        }
    }

    /// The whole board as drawn.
    pub open spec fn rendering(self) -> Seq<char> {
        self.rendered_rows(self.num_rows as int)
    }

    /// The board drawn as text: a border of dashes around and between the
    /// rows, bars between the columns, each piece's color name centred in its
    /// cell. Fails where a name is wider than a column.
    pub fn stringify(&self) -> (r: Result<String, GameError>)
        requires
            self.wf(),
            self.drawable(),
        ensures
            r is Err <==> !self.labels_fit(),
            r is Err ==> r == Err::<String, GameError>(GameError::RenderingError),
            r matches Ok(s) ==> s@ == self.rendering(),
    {
        let width = self.column_width;
        let mut border = String::new();
        proof {
            reveal_strlit("-");
            assert("-"@ =~= seq!['-']);
        }
        let cells_width = self.num_columns * width;
        push_repeated(&mut border, "-", cells_width + self.num_columns + 1);
        proof {
            reveal_strlit(" ");
            reveal_strlit("|");
            reveal_strlit("\n");
            assert(" "@ =~= seq![' ']);
            assert("|"@ =~= seq!['|']);
            assert("\n"@ =~= seq!['\n']);
        }
        let mut unit = String::new();
        push_repeated(&mut unit, " ", width);
        unit.append("|");
        let mut blank = String::from_str("|");
        push_repeated(&mut blank, unit.as_str(), self.num_columns);
        blank.append("\n");
        assert(blank@ =~= self.blank_line() + seq!['\n']);
        let above: usize = if self.row_height == 0 { 0 } else { (self.row_height - 1) / 2 };
        let below: usize = if self.row_height == 0 { 0 } else { self.row_height - 1 - above };
        let mut out = String::new();
        out.append(border.as_str());
        assert(out@ =~= self.rendered_rows(0));
        let mut r: usize = 0;
        while r < self.num_rows
            invariant
                self.wf(),
                r <= self.num_rows,
                width == self.column_width,
                "\n"@ == seq!['\n'],
                border@ == self.border(),
                blank@ == self.blank_line() + seq!['\n'],
                above == self.pad_above(),
                below == self.pad_below(),
                out@ == self.rendered_rows(r as int),
                forall|i: int, c: int|
                    0 <= i < r && 0 <= c < self.num_columns && (#[trigger] self.cell(i, c)) is Some
                        ==> color_label(self.cell(i, c)->0).len() <= self.column_width,
            decreases self.num_rows - r,
        {
            let line = match self.row_line(r) {
                Some(l) => l,
                None => return Err(GameError::RenderingError),
            };
            let ghost before = out@;
            out.append("\n");
            push_repeated(&mut out, blank.as_str(), above);
            out.append(line.as_str());
            out.append("\n");
            push_repeated(&mut out, blank.as_str(), below);
            out.append(border.as_str());
            assert(out@ =~= before + self.row_block(r as int));
            r += 1;
        }
        Ok(out)
    }

    /// The line of row `row_index` that shows its pieces; `None` where a
    /// color name is wider than a column.
    fn row_line(&self, row_index: usize) -> (r: Option<String>)
        requires
            self.wf(),
            row_index < self.num_rows,
        ensures
            r is None <==> exists|c: int|
                0 <= c < self.num_columns && (#[trigger] self.cell(row_index as int, c)) is Some
                    && color_label(self.cell(row_index as int, c)->0).len() > self.column_width,
            r matches Some(s) ==> s@ == row_text(self.row(row_index as int), self.column_width as nat, self.num_columns as int),
    {
        proof {
            reveal_strlit("|");
            assert("|"@ =~= seq!['|']);
        }
        let mut line = String::from_str("|");
        let mut c: usize = 0;
        while c < self.num_columns
            invariant
                self.wf(),
                row_index < self.num_rows,
                c <= self.num_columns,
                "|"@ == seq!['|'],
                line@ == row_text(self.row(row_index as int), self.column_width as nat, c as int),
                forall|j: int|
                    0 <= j < c && (#[trigger] self.cell(row_index as int, j)) is Some
                        ==> color_label(self.cell(row_index as int, j)->0).len() <= self.column_width,
            decreases self.num_columns - c,
        {
            let text = match cell_string(self.data[row_index][c], self.column_width) {
                Some(t) => t,
                None => {
                    assert(self.cell(row_index as int, c as int) is Some);
                    return None;
                },
            };
            let ghost before = line@;
            line.append(text.as_str());
            line.append("|");
            assert(self.row(row_index as int)[c as int] == self.cell(row_index as int, c as int));
            assert(line@ =~= before + cell_text(self.row(row_index as int)[c as int], self.column_width as nat) + seq!['|']);
            c += 1;
        }
        Some(line)
    }
}

/// A cell drawn `width` characters wide; `None` where its color's name is wider.
fn cell_string(cell: Option<Color>, width: usize) -> (r: Option<String>)
    ensures
        r is None <==> (cell matches Some(c) && color_label(c).len() > width),
        r matches Some(s) ==> s@ == cell_text(cell, width as nat),
{
    let mut s = String::new();
    proof {
        reveal_strlit(" ");
        assert(" "@ =~= seq![' ']);
    }
    match cell {
        None => {
            push_repeated(&mut s, " ", width);
            assert(s@ =~= cell_text(cell, width as nat));
            Some(s)
        },
        Some(c) => {
            let len = c.label_len();
            if len > width {
                return None;
            }
            let rem = width - len;
            push_repeated(&mut s, " ", rem / 2);
            s.append(c.label());
            push_repeated(&mut s, " ", rem - rem / 2);
            assert(s@ =~= cell_text(cell, width as nat));
            Some(s)
        },
    }
}

/// Appends `piece` to `out` `n` times.
fn push_repeated(out: &mut String, piece: &str, n: usize)
    ensures
        final(out)@ == old(out)@ + repeated(piece@, n as nat),
{
    let mut i: usize = 0;
    while i < n
        invariant
            i <= n,
            out@ == old(out)@ + repeated(piece@, i as nat),
        decreases n - i,
    {
        out.append(piece);
        assert(old(out)@ + repeated(piece@, (i + 1) as nat) =~= old(out)@ + repeated(piece@, i as nat) + piece@);
        i += 1;
    }
}

} // verus!
