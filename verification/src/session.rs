use vstd::prelude::*;
use crate::position::Position;
use crate::state::Color;

verus! {

/// How a game can stand or end.
pub enum GameResult {
    Ongoing,
    Checkmate,
    Stalemate,
    Draw,
}

/// A running game: the position beside whose turn it is and how the game
/// stands.
pub struct Game {
    pub position: Position,
    pub current_player: Color,
    pub game_result: GameResult,
}

impl Game {
    pub fn new() -> (r: Self)
        ensures
            r.current_player == Color::White,
            (r.game_result is Ongoing),
            r.position.wf(),
    {
        Self {
            position: Position::new(),
            current_player: Color::White,
            game_result: GameResult::Ongoing,
        }
    }

    pub fn make_move(&mut self, _from: u8, _to: u8)
        ensures
            final(self).current_player == old(self).current_player.spec_not(),
    {
        // Switch the current player
        self.current_player = self.current_player.not();
    }

    pub fn set_current_player(&mut self, color: Color)
        ensures
            final(self).current_player == color,
    {
        self.current_player = color;
    }
}

} // verus!
