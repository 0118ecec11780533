use vstd::prelude::*;

verus! {

/// The colour of a player or a piece.
#[derive(Clone, Copy, Debug, PartialEq, Eq, Hash, Structural)]
pub enum Colour {
    White,
    Black,
}

} // verus!
