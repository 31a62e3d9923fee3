//! Players that the computer runs.
use vstd::prelude::*;

use rand::seq::SliceRandom;

use crate::engine::game::{counter_room, Game};
use crate::engine::moves::Move;
use crate::engine::rules::legal_moves_of;

verus! {

/// A player that chooses the next move of a game.
pub trait ChessAi {
    /// Whether this player finds a move whenever the side to move has a legal one.
    spec fn always_moves(&self) -> bool;

    /// A legal move of the side to move, or none; a player that always moves gives none
    /// only when there is no legal move.
    fn next_move(&self, game: &Game) -> (m: Option<Move>)
        requires
            counter_room(game@.board),
        ensures
            m matches Some(mv) ==> legal_moves_of(game@.board).contains(mv),
            self.always_moves() ==> (m is None <==> legal_moves_of(game@.board).len() == 0),
    ;
}

/// The first level: a legal move chosen at random.
pub struct RandomAi;

/// `rand`'s `SliceRandom::choose` with the thread's generator: one of `moves` chosen at
/// random, and none exactly when `moves` is empty. Which one it picks is left unsaid: it
/// depends on the generator's state.
#[verifier::external_body]
fn choose_move(moves: &Vec<Move>) -> (m: Option<Move>)
    ensures
        m is None <==> moves@.len() == 0,
        m matches Some(mv) ==> moves@.contains(mv),
{
    let mut rng = rand::thread_rng();
    moves.choose(&mut rng).copied()
}

impl ChessAi for RandomAi {
    open spec fn always_moves(&self) -> bool {
        true
    }

    fn next_move(&self, game: &Game) -> (m: Option<Move>)
        ensures
            m is None <==> legal_moves_of(game@.board).len() == 0,
    {
        let moves = game.legal_moves();
        choose_move(&moves)
    }
}

/// The player of a level: every level is the random player for now, which finds a move
/// whenever there is one.
pub fn get_ai(level: u8) -> (ai: impl ChessAi)
    ensures
        ai.always_moves(),
{
    match level {
        1 => RandomAi,
        _ => RandomAi,
    }
}

} // verus!
