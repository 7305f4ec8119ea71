use vstd::prelude::*;

verus! {

/// The team a piece belongs to.
#[derive(Debug, PartialEq, Eq, Structural, Clone, Copy)]
pub enum Color {
    Red,
    Black,
}

/// The text that names a color when a board is drawn.
pub open spec fn color_label(c: Color) -> Seq<char> {
    match c {
        Color::Red => seq!['R', 'e', 'd'],
        Color::Black => seq!['B', 'l', 'a', 'c', 'k'],
    }
}

impl Color {
    /// The name of the color, as it is shown on a drawn board.
    pub fn label(&self) -> (r: &'static str)
        ensures
            r@ == color_label(*self),
    {
        match self {
            Color::Red => {
                proof {
                    reveal_strlit("Red");
                }
                "Red"
            },
            Color::Black => {
                proof {
                    reveal_strlit("Black");
                }
                "Black"
            },
        }
    }

    /// The number of characters in the color's name.
    pub fn label_len(&self) -> (r: usize)
        ensures
            r == color_label(*self).len(),
    {
        match self {
            Color::Red => 3,
            Color::Black => 5,
        }
    }
}

} // verus!
