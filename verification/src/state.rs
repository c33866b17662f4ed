use vstd::prelude::*;

verus! {

/// The two sides of the game.
#[derive(Debug, Clone, Copy, Hash, Eq, PartialEq, Structural)]
pub enum Color {
    White,
    Black,
}

impl Color {
    /// The side's index into per-color arrays: white first.
    pub open spec fn spec_index(self) -> int {
        match self {
            Color::White => 0,
            Color::Black => 1,
        }
    }

    /// The other side's index.
    pub open spec fn spec_other_index(self) -> int {
        match self {
            Color::White => 1,
            Color::Black => 0,
        }
    }

    pub fn index(self) -> (r: usize)
        ensures
            r == self.spec_index(),
    {
        match self {
            Color::White => 0,
            Color::Black => 1,
        }
    }

    pub open spec fn spec_not(self) -> Color {
        match self {
            Color::White => Color::Black,
            Color::Black => Color::White,
        }
    }

    /// The opposing side.
    pub fn not(self) -> (r: Color)
        ensures
            r == self.spec_not(),
    {
        match self {
            Color::White => Color::Black,
            Color::Black => Color::White,
        }
    }
}

impl From<bool> for Color {
    fn from(b: bool) -> (r: Self) {
        match b {
            false => Color::Black,
            true => Color::White,
        }
    }
}

impl vstd::std_specs::convert::FromSpecImpl<bool> for Color {
    open spec fn obeys_from_spec() -> bool {
        true
    }

    open spec fn from_spec(b: bool) -> Color {
        match b {
            false => Color::Black,
            true => Color::White,
        }
    }
}

/// Bit flags for the possible outcomes of a game.
pub struct Results;

impl Results {
    pub const ONGOING: u8 = 0b00010000;

    pub const DRAW: u8 = 0b00001000;

    pub const WHITE_VICTORY: u8 = 0b00000100;

    pub const BLACK_VICTORY: u8 = 0b00000010;

    pub const STALEMATE: u8 = 0b00000001;
}

/// Provides the index for each piece type.
#[derive(Debug)]
pub struct Piece;

impl Piece {
    pub const ROOK: u8 = 0;

    pub const KNIGHT: u8 = 1;

    pub const BISHOP: u8 = 2;

    pub const QUEEN: u8 = 3;

    pub const KING: u8 = 4;

    pub const PAWN: u8 = 5;

    pub const NO_PIECE: u8 = 6;
}

/// Bit flags for the four castling rights.
#[derive(Debug, Copy, Clone, Eq, PartialEq, Structural, Hash)]
pub struct Castling;

impl Castling {
    pub const NO_CASTLING: u8 = 0;

    pub const WHITE_KING_SIDE: u8 = 0b00001000;

    pub const WHITE_QUEEN_SIDE: u8 = 0b00000100;

    pub const BLACK_KING_SIDE: u8 = 0b00000010;

    pub const BLACK_QUEEN_SIDE: u8 = 0b00000001;

    pub const BOTH_KING_SIDES: u8 = Self::WHITE_KING_SIDE | Self::BLACK_KING_SIDE;

    pub const BOTH_QUEEN_SIDES: u8 = Self::WHITE_QUEEN_SIDE | Self::BLACK_QUEEN_SIDE;

    pub const WHITE_CASTLING: u8 = Self::WHITE_KING_SIDE | Self::WHITE_QUEEN_SIDE;

    pub const BLACK_CASTLING: u8 = Self::BLACK_KING_SIDE | Self::BLACK_QUEEN_SIDE;

    pub const ANY_CASTLING: u8 = Self::WHITE_CASTLING | Self::BLACK_CASTLING;
}

/* Game result is stored in a u8, with one flag bit each for: ongoing, draw,
/ white's victory, black's victory and stalemate. */
#[derive(Debug, Clone, Copy, Hash, Eq, PartialEq, Structural)]
pub struct GameResult(pub u8);

impl GameResult {
    pub fn new() -> (r: Self)
        ensures
            r.0 == Results::ONGOING,
    {
        Self(Results::ONGOING)
    }

    pub fn is_ongoing(self) -> (r: bool)
        ensures
            r == (self.0 == Results::ONGOING),
    {
        self == GameResult(Results::ONGOING)
    }
}

impl Default for GameResult {
    fn default() -> (r: Self)
        ensures
            r.0 == Results::ONGOING,
    {
        Self(Results::ONGOING)
    }
}

/* For performance reasons, a single u8 represents the castling rights, with
/ one flag bit each for white's king side, white's queen side, black's king
/ side and black's queen side. */
#[derive(Debug, Clone, Copy, Hash, Eq, PartialEq, Structural)]
pub struct CastlingRights(pub u8);

impl CastlingRights {
    pub fn all() -> (r: Self)
        ensures
            r.0 == Castling::ANY_CASTLING,
    {
        Self(Castling::ANY_CASTLING)
    }

    /// What the exchange below computes: it reads the high nibble, though
    /// the rights live in the low one, so on every value the rights can
    /// take it returns zero. The behaviour is kept as it was found; its one
    /// caller overwrites the result.
    pub open spec fn spec_flipped(self) -> u8 {
        ((self.0 & 0b00010000) << 2) | ((self.0 & 0b00100000) << 1) | ((self.0 & 0b01000000) >> 2)
            | ((self.0 & 0b10000000) >> 1)
    }

    pub fn not(self) -> (r: Self)
        ensures
            r.0 == self.spec_flipped(),
    {
        let white_kingside = self.0 & 0b00010000;
        let white_queenside = self.0 & 0b00100000;
        let black_kingside = self.0 & 0b01000000;
        let black_queenside = self.0 & 0b10000000;

        let flipped_white_kingside = black_kingside >> 2u8;
        let flipped_white_queenside = black_queenside >> 1u8;
        let flipped_black_kingside = white_kingside << 2u8;
        let flipped_black_queenside = white_queenside << 1u8;

        let flipped_rights = flipped_black_kingside | flipped_black_queenside
            | flipped_white_kingside | flipped_white_queenside;
        Self(flipped_rights)
    }
}

impl Default for CastlingRights {
    fn default() -> (r: Self)
        ensures
            r.0 == Castling::ANY_CASTLING,
    {
        Self(Castling::ANY_CASTLING)
    }
}

/* A state holds the additional information that is necessary to evaluate
/ a position: castling rights, en passant square, halfmove clock, move
/ counter and the active player. */
#[derive(Debug, Clone, Copy, Hash, Eq, PartialEq)]
pub struct State {
    pub castling_rights: CastlingRights,
    pub en_passant_square: Option<u8>,
    pub half_move_counter: u8,
    pub full_move_counter: u16,
    pub active_player: Color,
    pub game_result: GameResult,
}

impl State {
    pub fn new() -> (r: Self)
        ensures
            r.castling_rights.0 == Castling::ANY_CASTLING,
            (r.en_passant_square is None),
            r.half_move_counter == 0,
            r.full_move_counter == 1,
            r.active_player == Color::White,
            r.game_result.0 == Results::ONGOING,
    {
        Self {
            castling_rights: CastlingRights::all(),
            en_passant_square: None,
            half_move_counter: 0,
            full_move_counter: 1,
            active_player: Color::White,
            game_result: GameResult::new(),
        }
    }

    pub fn switch_active_player(&mut self)
        ensures
            *final(self) == (State { active_player: old(self).active_player.spec_not(), ..*old(self) }),
    {
        self.active_player = self.active_player.not();
    }
}

} // verus!
