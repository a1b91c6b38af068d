use crate::card::Card;
use vstd::prelude::*;

verus! {

/// What the engine reports when it refuses an operation.
#[derive(Debug, Clone, PartialEq, Eq)]
pub enum EngineError {
    /// The card is not among the cards the seat may play; the state is unchanged.
    IllegalPlay { card: Card, legal: Vec<Card> },
    /// The bid is not admissible in the current auction phase, or comes from a
    /// seat other than the one asked; the state is unchanged.
    IllegalBid,
    /// No decision of that kind is awaited, or not from that seat; the state is unchanged.
    OutOfTurn,
    /// An invariant of the engine does not hold (deck underflow, wrong hand size).
    EngineFault,
}

} // verus!
