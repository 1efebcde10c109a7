//! A chess rules engine: board state, per-piece movement rules, check
//! detection and legal-move enumeration, with the position after a move
//! classified as normal, check, checkmate or stalemate.
use vstd::prelude::*;

pub mod movement;
pub mod piece;
pub mod board;

pub use movement::{Move, Square};

verus! {

/// Orders two bytes: `(smaller, larger, swapped)`, where `swapped` tells that
/// `a` was not the smaller one.
pub fn min_max_rev(a: u8, b: u8) -> (r: (u8, u8, bool))
    ensures
        r == (if a < b {
            (a, b, false)
        } else {
            (b, a, true)
        }),
{
    if a < b {
        (a, b, false)
    } else {
        (b, a, true)
    }
}

} // verus!
