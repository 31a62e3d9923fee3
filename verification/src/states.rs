//! The states of the board view.
use vstd::prelude::*;

use crate::engine::board::{Color, Piece, Square};
use crate::engine::moves::Move;

verus! {

#[derive(Debug)]
pub enum UiState {
    Idle,
    PieceSelected { piece: (Color, Piece), from: Square, legal_moves: Vec<Move> },
    MoveAnimation,
    WaitingOpponent,
    GameFinished,
    MainMenu,
    HistoryBrowser,
    Settings,
}

/// A copy of a list of moves.
fn copy_moves(v: &Vec<Move>) -> (r: Vec<Move>)
    ensures
        r@ == v@,
{
    let mut r: Vec<Move> = Vec::new();
    let mut i: usize = 0;
    while i < v.len()
        invariant
            i <= v@.len(),
            r@ == v@.take(i as int),
        decreases v@.len() - i,
    {
        r.push(v[i]);
        assert(r@ =~= v@.take(i + 1));
        i += 1;
    }
    assert(v@.take(v@.len() as int) =~= v@);
    r
}

/// Whether two states are the same: the same variant, and for a selection the same piece,
/// square and moves.
pub open spec fn same_state(a: UiState, b: UiState) -> bool {
    match (a, b) {
        (
            UiState::PieceSelected { piece: p1, from: f1, legal_moves: m1 },
            UiState::PieceSelected { piece: p2, from: f2, legal_moves: m2 },
        ) => p1 == p2 && f1 == f2 && m1@ == m2@,
        (UiState::PieceSelected { .. }, _) => false,
        (_, UiState::PieceSelected { .. }) => false,
        _ => a == b,
    }
}

impl Clone for UiState {
    fn clone(&self) -> (r: UiState)
        ensures
            same_state(r, *self),
    {
        match self {
            UiState::Idle => UiState::Idle,
            UiState::PieceSelected { piece, from, legal_moves } => {
                let moves = copy_moves(legal_moves);
                UiState::PieceSelected { piece: *piece, from: *from, legal_moves: moves }
            },
            UiState::MoveAnimation => UiState::MoveAnimation,
            UiState::WaitingOpponent => UiState::WaitingOpponent,
            UiState::GameFinished => UiState::GameFinished,
            UiState::MainMenu => UiState::MainMenu,
            UiState::HistoryBrowser => UiState::HistoryBrowser,
            UiState::Settings => UiState::Settings,
        }
    }
}

} // verus!
