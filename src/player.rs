use vstd::prelude::*;

use rand::Rng;

use crate::board::{available_columns_of, Board};
use crate::color::Color;

verus! {

/// Something that chooses where to drop the next piece: a person at a
/// terminal, a program, a script.
pub trait Player {
    /// The column to drop a piece of `color` into, given the board as it stands.
    /// A column that is not available ends the game with an error; so does an `Err`.
    fn get_column_index(&self, board: &Board, color: Color) -> (r: Result<usize, String>)
        requires
            board.wf(),
    ;

    /// The name under which the player is announced.
    fn get_name(&self) -> String;
}

/// Relies on rand::thread_rng and rand::Rng::gen_range: a number drawn from
/// `0..bound`, which is not empty (gen_range panics on an empty range).
#[verifier::external_body]
fn random_below(bound: usize) -> (r: usize)
    requires
        bound > 0,
    ensures
        r < bound,
{
    rand::thread_rng().gen_range(0..bound)
}

/// A player that picks one of the available columns at random, each with the same chance.
pub struct AIPlayer {
    name: String,
}

impl AIPlayer {
    pub closed spec fn name_spec(&self) -> Seq<char> {
        self.name@
    }

    pub fn new(name: String) -> (r: Self)
        ensures
            r.name_spec() == name@,
    {
        AIPlayer { name }
    }

    /// The column that a draw selects: the available columns are numbered
    /// in increasing order, and the draw picks one by its number, modulo
    /// their count. `None` where no column is available.
    pub fn column_for_draw(board: &Board, draw: usize) -> (r: Option<usize>)
        requires
            board.wf(),
        ensures
            available_columns_of(*board).len() == 0 ==> r is None,
            available_columns_of(*board).len() > 0 ==> r == Some(
                available_columns_of(*board)[draw as int % available_columns_of(*board).len() as int],
            ),
            r matches Some(c) ==> board.available(c as int),
    {
        let cols = board.available_columns();
        if cols.len() == 0 {
            None
        } else {
            Some(cols[draw % cols.len()])
        }
    }
}

impl Player for AIPlayer {
    /// Draws among the available columns; fails only where none is left.
    fn get_column_index(&self, board: &Board, color: Color) -> (r: Result<usize, String>)
        ensures
            r is Ok <==> !board.full(),
            r matches Ok(c) ==> board.available(c as int),
    {
        let count = board.available_columns().len();
        if count == 0 {
            return Err(String::from_str("no column is available"));
        }
        let draw = random_below(count);
        match AIPlayer::column_for_draw(board, draw) {
            Some(c) => Ok(c),
            None => Err(String::from_str("no column is available")),
        }
    }

    fn get_name(&self) -> (r: String)
        ensures
            r@ == self.name_spec(),
    {
        self.name.clone()
    }
}

/// What the text of `str::trim` is on a given text.
pub uninterp spec fn trimmed(s: Seq<char>) -> Seq<char>;

/// Every character is an ASCII digit.
pub open spec fn all_digits(s: Seq<char>) -> bool {
    forall|i: int| 0 <= i < s.len() ==> '0' <= #[trigger] s[i] && s[i] <= '9'
}

/// The number that a string of decimal digits spells.
pub open spec fn digits_value(s: Seq<char>) -> nat
    decreases s.len(),
{
    if s.len() == 0 {
        0
    } else {
        digits_value(s.drop_last()) * 10 + ((s.last() as int) - ('0' as int)) as nat
    }
}

/// The `usize` that a text spells: an optional `+`, then one or more ASCII
/// digits whose value fits in a `usize`; `None` for any other text.
pub open spec fn parsed_usize(s: Seq<char>) -> Option<usize> {
    let d = if s.len() > 0 && s[0] == '+' { s.drop_first() } else { s };
    if d.len() > 0 && all_digits(d) && digits_value(d) <= usize::MAX {
        Some(digits_value(d) as usize)
    } else {
        None
    }
}

/// Relies on str::trim: the text without its leading and trailing whitespace.
#[verifier::external_body]
fn trim_text<'a>(s: &'a str) -> (r: &'a str)
    ensures
        r@ == trimmed(s@),
{
    s.trim()
}

/// Relies on str::parse for usize: the decimal number the text spells, if any.
#[verifier::external_body]
fn parse_number(s: &str) -> (r: Option<usize>)
    ensures
        r == parsed_usize(s@),
{
    s.parse::<usize>().ok()
}

/// Why a line typed at a terminal does not choose a column.
#[derive(Debug, PartialEq, Eq, Structural, Clone, Copy)]
pub enum ChoiceError {
    /// The line is not a whole number.
    NotANumber,
    /// The number names no column that can take a piece (columns are numbered from 1).
    UnavailableColumn,
}

/// The column that a number typed at a terminal chooses: columns are numbered from 1.
pub open spec fn choice_for(b: Board, entry: Option<usize>) -> Result<usize, ChoiceError> {
    match entry {
        None => Err(ChoiceError::NotANumber),
        Some(n) => if n >= 1 && b.available(n - 1) {
            Ok((n - 1) as usize)
        } else {
            Err(ChoiceError::UnavailableColumn)
        },
    }
}

/// A person who chooses columns by typing their numbers at a terminal.
pub struct TerminalPlayer {
    name: String,
}

impl TerminalPlayer {
    pub closed spec fn name_spec(&self) -> Seq<char> {
        self.name@
    }

    pub fn new(name: String) -> (r: Self)
        ensures
            r.name_spec() == name@,
    {
        TerminalPlayer { name }
    }

    /// The name under which the player is announced.
    pub fn get_name(&self) -> (r: String)
        ensures
            r@ == self.name_spec(),
    {
        self.name.clone()
    }

    /// The column that a typed number chooses, counting columns from 1.
    pub fn interpret(board: &Board, entry: Option<usize>) -> (r: Result<usize, ChoiceError>)
        requires
            board.wf(),
        ensures
            r == choice_for(*board, entry),
    {
        match entry {
            None => Err(ChoiceError::NotANumber),
            Some(n) => {
                if n >= 1 && board.available_column(n - 1) {
                    Ok(n - 1)
                } else {
                    Err(ChoiceError::UnavailableColumn)
                }
            },
        }
    }

    /// The column that a typed line chooses: the line, without surrounding
    /// whitespace, is read as a column number counted from 1.
    pub fn read_choice(board: &Board, line: &str) -> (r: Result<usize, ChoiceError>)
        requires
            board.wf(),
        ensures
            r == choice_for(*board, parsed_usize(trimmed(line@))),
            r matches Ok(c) ==> board.available(c as int),
    {
        let text = trim_text(line);
        let entry = parse_number(text);
        TerminalPlayer::interpret(board, entry)
    }
}

} // verus!
