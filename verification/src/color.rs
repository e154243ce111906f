use vstd::prelude::*;

verus! {

/// The two sides of the game. Black moves first.
#[derive(Clone, Copy, Debug, PartialEq, Eq, Structural)]
pub enum Color {
    Black,
    White,
}

impl Color {
    /// The opposing side.
    pub open spec fn other_spec(self) -> Color {
        match self {
            Color::Black => Color::White,
            Color::White => Color::Black,
        }
    }

    /// Maps each side to its opponent.
    #[verifier::when_used_as_spec(other_spec)]
    pub fn other(self) -> (r: Color)
        ensures
            r == self.other_spec(),
    {
        match self {
            Self::Black => Self::White,
            Self::White => Self::Black,
        }
    }
}

} // verus!
