use vstd::prelude::*;

verus! {

/// The error conditions this library reports.
///
/// - `InvalidRank`: a card was requested with a rank outside 1..=13.
/// - `EmptyDeck`: a draw was requested from a deck whose 52 cards are gone.
/// - `MalformedHandInput`: a best-hand search was given seven cards that are
///   not pairwise distinct as (rank, suit) identities.
#[derive(Clone, Copy, Debug, PartialEq, Eq, Structural)]
pub enum PokerError {
    InvalidRank,
    EmptyDeck,
    MalformedHandInput,
}

} // verus!
