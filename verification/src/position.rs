use vstd::prelude::*;
use crate::bitboard::BitBoard;
use crate::bits::{bit64, lemma_or_bit, lemma_xor_bit, lemma_and_bit, lemma_single_bit, lemma_disjoint_bits};
use crate::state::{State, Color, Castling, CastlingRights, GameResult, Results, Piece};

verus! {

/* A position contains the minimum amount of information necessary
/ for the engine to calculate moves and evaluate the board state. */
#[derive(Debug, Clone)]
pub struct Position {
    // One occupancy BitBoard for each side; white first.
    pub color_bitboards: Vec<BitBoard>,
    // One BitBoard for each piece type: rook, knight, bishop, queen, king, pawn.
    pub piece_bitboards: Vec<BitBoard>,
    pub state: State,
    // Attack bitboard for each square: all squares attacked by the piece
    // standing on that square, if any.
    pub attack_bitboards: Vec<BitBoard>,
    pub attacked_by_white: BitBoard,
    pub attacked_by_black: BitBoard,
    pub move_history: Vec<(u8, u8)>,
    pub en_passant_square: Option<u8>,
    pub check: bool,
}

/// The mathematical content of a position: the boards as sequences, with
/// the game state beside them.
#[verifier::ext_equal]
pub ghost struct BoardView {
    pub cb: Seq<BitBoard>,
    pub pb: Seq<BitBoard>,
    pub state: State,
    pub ab: Seq<BitBoard>,
    pub atk_w: BitBoard,
    pub atk_b: BitBoard,
    pub hist: Seq<(u8, u8)>,
    pub ep: Option<u8>,
    pub check: bool,
}

impl View for Position {
    type V = BoardView;

    open spec fn view(&self) -> BoardView {
        BoardView {
            cb: self.color_bitboards@,
            pb: self.piece_bitboards@,
            state: self.state,
            ab: self.attack_bitboards@,
            atk_w: self.attacked_by_white,
            atk_b: self.attacked_by_black,
            hist: self.move_history@,
            ep: self.en_passant_square,
            check: self.check,
        }
    }
}

/// Some square holds a piece of `color` whose attack board covers `square`.
pub open spec fn attacked_by(v: BoardView, square: u8, color: Color) -> bool {
    exists|i: u64|
        i < 64 && #[trigger] bit64(v.ab[i as int].0, square as u64) && bit64(
            v.cb[color.spec_index()].0,
            i,
        )
}

/// Some side's occupancy board holds square `i`.
pub open spec fn occ_s(cb: Seq<BitBoard>, i: u64) -> bool {
    bit64(cb[0].0, i) || bit64(cb[1].0, i)
}

/// Some piece board holds square `i`.
pub open spec fn piece_s(pb: Seq<BitBoard>, i: u64) -> bool {
    ||| bit64(pb[0].0, i)
    ||| bit64(pb[1].0, i)
    ||| bit64(pb[2].0, i)
    ||| bit64(pb[3].0, i)
    ||| bit64(pb[4].0, i)
    ||| bit64(pb[5].0, i)
}

/// The color boards hold exactly the squares that the piece boards hold.
pub open spec fn consistent_s(cb: Seq<BitBoard>, pb: Seq<BitBoard>) -> bool {
    forall|i: u64| i < 64 ==> (#[trigger] occ_s(cb, i) == piece_s(pb, i))
}

/// No square is occupied by both sides.
pub open spec fn colors_disjoint_s(cb: Seq<BitBoard>) -> bool {
    forall|i: u64| i < 64 ==> !(#[trigger] bit64(cb[0].0, i) && bit64(cb[1].0, i))
}

/// No square carries two piece types.
pub open spec fn pieces_disjoint_s(pb: Seq<BitBoard>) -> bool {
    forall|a: int, b: int, i: u64|
        0 <= a < b < 6 && i < 64 ==> !(#[trigger] bit64(pb[a].0, i) && #[trigger] bit64(
            pb[b].0,
            i,
        ))
}

/// The board invariant: occupancies agree and no square is claimed twice.
pub open spec fn boards_ok(cb: Seq<BitBoard>, pb: Seq<BitBoard>) -> bool {
    &&& consistent_s(cb, pb)
    &&& colors_disjoint_s(cb)
    &&& pieces_disjoint_s(pb)
}

/// Index of the first piece board holding square `sq`, or 6 when none does.
pub open spec fn fpi(pb: Seq<BitBoard>, sq: u8) -> u8 {
    if bit64(pb[0].0, sq as u64) {
        0
    } else if bit64(pb[1].0, sq as u64) {
        1
    } else if bit64(pb[2].0, sq as u64) {
        2
    } else if bit64(pb[3].0, sq as u64) {
        3
    } else if bit64(pb[4].0, sq as u64) {
        4
    } else if bit64(pb[5].0, sq as u64) {
        5
    } else {
        6
    }
}

/// The side a piece on `sq` belongs to: white when white's board holds the
/// square, black otherwise.
pub open spec fn col_at(cb: Seq<BitBoard>, sq: u8) -> Color {
    if bit64(cb[0].0, sq as u64) {
        Color::White
    } else {
        Color::Black
    }
}

/// The color boards after moving the piece on `from` to `to`, taking
/// whatever stood on `to` off the board first.
pub open spec fn mm_colors(cb: Seq<BitBoard>, pb: Seq<BitBoard>, from: u8, to: u8) -> Seq<
    BitBoard,
> {
    let fm = 1u64 << (from as u64);
    let tm = 1u64 << (to as u64);
    let mi = col_at(cb, from).spec_index();
    let s0 = if fpi(pb, to) != 6 {
        let ci = col_at(cb, to).spec_index();
        cb.update(ci, BitBoard(cb[ci].0 ^ tm))
    } else {
        cb
    };
    let s1 = s0.update(mi, BitBoard(s0[mi].0 ^ fm));
    s1.update(mi, BitBoard(s1[mi].0 | tm))
}

/// The piece boards after moving the piece on `from` to `to`, taking
/// whatever stood on `to` off the board first.
pub open spec fn mm_pieces(pb: Seq<BitBoard>, from: u8, to: u8) -> Seq<BitBoard> {
    let fm = 1u64 << (from as u64);
    let tm = 1u64 << (to as u64);
    let pi = fpi(pb, from) as int;
    let s0 = if fpi(pb, to) != 6 {
        let ci = fpi(pb, to) as int;
        pb.update(ci, BitBoard(pb[ci].0 ^ tm))
    } else {
        pb
    };
    let s1 = s0.update(pi, BitBoard(s0[pi].0 ^ fm));
    s1.update(pi, BitBoard(s1[pi].0 | tm))
}

/// Moving a piece keeps the board invariant: what the color boards gain and
/// lose, the piece boards gain and lose too, and no square ends up claimed
/// twice.
pub proof fn lemma_make_move_ok(cb: Seq<BitBoard>, pb: Seq<BitBoard>, from: u8, to: u8)
    requires
        cb.len() == 2,
        pb.len() == 6,
        boards_ok(cb, pb),
        from < 64,
        to < 64,
        from != to,
        fpi(pb, from) != 6,
    ensures
        boards_ok(mm_colors(cb, pb, from, to), mm_pieces(pb, from, to)),
        mm_colors(cb, pb, from, to).len() == 2,
        mm_pieces(pb, from, to).len() == 6,
{
    lemma_or_bit();
    lemma_xor_bit();
    lemma_single_bit();
    let cb2 = mm_colors(cb, pb, from, to);
    let pb2 = mm_pieces(pb, from, to);
    assert(occ_s(cb, from as u64) == piece_s(pb, from as u64));
    assert(occ_s(cb, to as u64) == piece_s(pb, to as u64));
    assert(!(bit64(cb[0].0, from as u64) && bit64(cb[1].0, from as u64)));
    assert(!(bit64(cb[0].0, to as u64) && bit64(cb[1].0, to as u64)));
    assert forall|i: u64| i < 64 implies (#[trigger] occ_s(cb2, i) == piece_s(pb2, i)) by {
        mm_facts_at(cb, pb, from, to, i);
        if i == from as u64 {
            assert(!bit64(cb2[0].0, i));
            assert(!bit64(cb2[1].0, i));
            assert(!piece_s(pb2, i));
        } else if i == to as u64 {
            assert(bit64(cb2[col_at(cb, from).spec_index()].0, i));
            assert(bit64(pb2[fpi(pb, from) as int].0, i));
        } else {
            assert(occ_s(cb2, i) == occ_s(cb, i));
            assert(piece_s(pb2, i) == piece_s(pb, i));
        }
    }
    assert forall|i: u64| i < 64 implies !(#[trigger] bit64(cb2[0].0, i) && bit64(
        cb2[1].0,
        i,
    )) by {
        mm_facts_at(cb, pb, from, to, i);
    }
    assert forall|a: int, b: int, i: u64|
        0 <= a < b < 6 && i < 64 implies !(#[trigger] bit64(pb2[a].0, i) && #[trigger] bit64(
        pb2[b].0,
        i,
    )) by {
        mm_facts_at(cb, pb, from, to, i);
    }
}

/// The facts about square `i` of the old boards that the move proof leans on.
pub(crate) proof fn mm_facts_at(cb: Seq<BitBoard>, pb: Seq<BitBoard>, from: u8, to: u8, i: u64)
    requires
        cb.len() == 2,
        pb.len() == 6,
        boards_ok(cb, pb),
        from < 64,
        to < 64,
        i < 64,
        fpi(pb, from) != 6,
    ensures
        occ_s(cb, i) == piece_s(pb, i),
        !(bit64(cb[0].0, i) && bit64(cb[1].0, i)),
        !(bit64(pb[0].0, i) && bit64(pb[1].0, i)),
        !(bit64(pb[0].0, i) && bit64(pb[2].0, i)),
        !(bit64(pb[0].0, i) && bit64(pb[3].0, i)),
        !(bit64(pb[0].0, i) && bit64(pb[4].0, i)),
        !(bit64(pb[0].0, i) && bit64(pb[5].0, i)),
        !(bit64(pb[1].0, i) && bit64(pb[2].0, i)),
        !(bit64(pb[1].0, i) && bit64(pb[3].0, i)),
        !(bit64(pb[1].0, i) && bit64(pb[4].0, i)),
        !(bit64(pb[1].0, i) && bit64(pb[5].0, i)),
        !(bit64(pb[2].0, i) && bit64(pb[3].0, i)),
        !(bit64(pb[2].0, i) && bit64(pb[4].0, i)),
        !(bit64(pb[2].0, i) && bit64(pb[5].0, i)),
        !(bit64(pb[3].0, i) && bit64(pb[4].0, i)),
        !(bit64(pb[3].0, i) && bit64(pb[5].0, i)),
        !(bit64(pb[4].0, i) && bit64(pb[5].0, i)),
        bit64(pb[fpi(pb, from) as int].0, from as u64),
        bit64(cb[col_at(cb, from).spec_index()].0, from as u64),
        fpi(pb, to) != 6 ==> bit64(pb[fpi(pb, to) as int].0, to as u64),
        fpi(pb, to) != 6 ==> bit64(cb[col_at(cb, to).spec_index()].0, to as u64),
        fpi(pb, to) == 6 ==> !occ_s(cb, to as u64),
{
    assert(occ_s(cb, from as u64) == piece_s(pb, from as u64));
    assert(occ_s(cb, to as u64) == piece_s(pb, to as u64));
    assert(occ_s(cb, i) == piece_s(pb, i));
}

impl Position {
    /// The boards have their fixed lengths: two color boards, six piece
    /// boards, one attack board per square.
    pub open spec fn well_sized(self) -> bool {
        &&& self.color_bitboards@.len() == 2
        &&& self.piece_bitboards@.len() == 6
        &&& self.attack_bitboards@.len() == 64
    }

    /// Some side's occupancy board holds square `i`.
    pub open spec fn occ_bit(self, i: u64) -> bool {
        occ_s(self.color_bitboards@, i)
    }

    /// Some piece board holds square `i`.
    pub open spec fn piece_bit(self, i: u64) -> bool {
        piece_s(self.piece_bitboards@, i)
    }

    /// The union of the color bitboards holds exactly the squares that the
    /// union of the piece bitboards holds.
    pub open spec fn consistent(self) -> bool {
        consistent_s(self.color_bitboards@, self.piece_bitboards@)
    }

    /// The invariant every reachable position keeps: the boards have their
    /// fixed sizes, the color occupancy matches the piece occupancy, and no
    /// square is claimed twice.
    pub open spec fn wf(self) -> bool {
        &&& self.well_sized()
        &&& boards_ok(self.color_bitboards@, self.piece_bitboards@)
    }

    /// Index of the first piece board holding square `sq`, or 6 when none does.
    pub open spec fn spec_piece_index_at(self, sq: u8) -> u8 {
        fpi(self.piece_bitboards@, sq)
    }

    /// The side a piece on `sq` belongs to: white when white's board holds
    /// the square, black otherwise.
    pub open spec fn spec_color_at(self, sq: u8) -> Color {
        col_at(self.color_bitboards@, sq)
    }

    /// What `piece_at` answers: the first matching piece board and the
    /// square's side, or nothing for an empty square.
    pub open spec fn spec_piece_at(self, sq: u8) -> Option<(u8, Color)> {
        if self.spec_piece_index_at(sq) == 6 {
            None
        } else {
            Some((self.spec_piece_index_at(sq), self.spec_color_at(sq)))
        }
    }

    // Returns the piece at a given square or None if the square is empty
    #[inline]
    pub fn piece_at(&self, square: u8) -> (r: Option<(u8, Color)>)
        requires
            square < 64,
            self.well_sized(),
        ensures
            r == self.spec_piece_at(square),
            (r is Some) == self.piece_bit(square as u64),
    {
        let mask: u64 = 1u64 << square;
        let color_mask = if self.color_bitboards[0].0 & mask != 0 {
            Color::White
        } else {
            Color::Black
        };

        let piece_index: u8 = if self.piece_bitboards[0].0 & mask != 0 {
            0
        } else if self.piece_bitboards[1].0 & mask != 0 {
            1
        } else if self.piece_bitboards[2].0 & mask != 0 {
            2
        } else if self.piece_bitboards[3].0 & mask != 0 {
            3
        } else if self.piece_bitboards[4].0 & mask != 0 {
            4
        } else if self.piece_bitboards[5].0 & mask != 0 {
            5
        } else {
            6
        };

        if piece_index == 6 {
            return None;
        }
        Some((piece_index, color_mask))
    }

    pub fn all_pieces(&self) -> (r: BitBoard)
        requires
            self.well_sized(),
        ensures
            r.0 == self.color_bitboards@[0].0 | self.color_bitboards@[1].0,
    {
        BitBoard(self.color_bitboards[0].0 | self.color_bitboards[1].0)
    }

    pub fn piece_color(&self, square: u8) -> (r: Color)
        requires
            square < 64,
            self.well_sized(),
            self.occ_bit(square as u64),
        ensures
            r == self.spec_color_at(square),
    {
        if self.color_bitboards[0].contains(square) {
            Color::White
        } else {
            Color::Black
        }
    }

    pub fn piece_type_at(&self, square: u8) -> (r: Option<u8>)
        requires
            square < 64,
            self.well_sized(),
        ensures
            r == (if self.spec_piece_index_at(square) == 6 {
                Option::<u8>::None
            } else {
                Option::Some(self.spec_piece_index_at(square))
            }),
    {
        if self.piece_bitboards[0].contains(square) {
            return Some(0);
        }
        if self.piece_bitboards[1].contains(square) {
            return Some(1);
        }
        if self.piece_bitboards[2].contains(square) {
            return Some(2);
        }
        if self.piece_bitboards[3].contains(square) {
            return Some(3);
        }
        if self.piece_bitboards[4].contains(square) {
            return Some(4);
        }
        if self.piece_bitboards[5].contains(square) {
            return Some(5);
        }
        None
    }

    pub fn is_capture(&self, end: &u8) -> (r: bool)
        requires
            *end < 64,
            self.well_sized(),
        ensures
            r == self.spec_is_capture(*end),
    {
        if let Some(piece) = self.piece_at(*end) {
            if piece.1 != self.state.active_player {
                return true;
            }
        }
        false
    }

    /// Whether moving onto `end` takes an enemy piece: the square holds a
    /// piece of the side not to move.
    pub open spec fn spec_is_capture(self, end: u8) -> bool {
        match self.spec_piece_at(end) {
            Some((_p, c)) => c != self.state.active_player,
            None => false,
        }
    }

    pub fn update_attack_maps(&mut self, attacker_square: u8, attacks: BitBoard)
        requires
            attacker_square < 64,
            old(self).well_sized(),
        ensures
            final(self).attack_bitboards@ == old(self).attack_bitboards@.update(
                attacker_square as int,
                attacks,
            ),
            final(self).color_bitboards@ == old(self).color_bitboards@,
            final(self).piece_bitboards@ == old(self).piece_bitboards@,
            final(self).state == old(self).state,
            final(self).attacked_by_white == old(self).attacked_by_white,
            final(self).attacked_by_black == old(self).attacked_by_black,
            final(self).move_history@ == old(self).move_history@,
            final(self).en_passant_square == old(self).en_passant_square,
            final(self).check == old(self).check,
    {
        self.attack_bitboards.set(attacker_square as usize, attacks);
    }

    /* Returns true if the given square is under attack by the given color:
    / some square holds a piece of that color whose attack bitboard covers
    / the square. */
    pub open spec fn spec_square_attacked_by(self, square: u8, color: Color) -> bool {
        attacked_by(self@, square, color)
    }

    #[inline]
    pub fn is_square_attacked_by_color(&self, square: u8, color: Color) -> (r: bool)
        requires
            square < 64,
            self.well_sized(),
        ensures
            r == self.spec_square_attacked_by(square, color),
    {
        let mut i: usize = 0;
        while i < 64
            invariant
                i <= 64,
                square < 64,
                self.well_sized(),
                forall|j: u64|
                    j < i ==> !(#[trigger] bit64(self@.ab[j as int].0, square as u64) && bit64(
                        self@.cb[color.spec_index()].0,
                        j,
                    )),
            decreases 64 - i,
        {
            // If the square is attacked by a piece on square i
            if self.attack_bitboards[i].contains(square) {
                // Check if the piece on square i is of the attacking color
                if self.color_bitboards[color.index()].contains(i as u8) {
                    proof {
                        assert(bit64(self@.ab[i as int].0, square as u64) && bit64(
                            self@.cb[color.spec_index()].0,
                            i as u64,
                        ));
                    }
                    return true;
                }
            }
            i = i + 1;
        }
        false
    }

    // Only to be used for debugging purposes
    pub fn all_attacked_squares(&self, color: Color) -> (r: BitBoard)
        requires
            self.well_sized(),
        ensures
            forall|s: u64|
                s < 64 ==> (#[trigger] bit64(r.0, s) <==> exists|i: u64|
                    i < 64 && #[trigger] bit64(self.color_bitboards@[color.spec_index()].0, i)
                        && bit64(self.attack_bitboards@[i as int].0, s)),
    {
        let mut attacked_squares = BitBoard::empty();
        let mut i: usize = 0;
        proof {
            crate::bits::lemma_zero_bit();
        }
        while i < 64
            invariant
                i <= 64,
                self.well_sized(),
                forall|s: u64|
                    s < 64 ==> (#[trigger] bit64(attacked_squares.0, s) <==> exists|j: u64|
                        j < i && #[trigger] bit64(self.color_bitboards@[color.spec_index()].0, j)
                            && bit64(self.attack_bitboards@[j as int].0, s)),
            decreases 64 - i,
        {
            let ghost prev = attacked_squares.0;
            let on_square = self.color_bitboards[color.index()].contains(i as u8);
            if on_square {
                attacked_squares = BitBoard(attacked_squares.0 | self.attack_bitboards[i].0);
            }
            proof {
                lemma_or_bit();
                assert forall|s: u64| s < 64 implies (#[trigger] bit64(attacked_squares.0, s)
                    <==> exists|j: u64|
                    j < i + 1 && #[trigger] bit64(self.color_bitboards@[color.spec_index()].0, j)
                        && bit64(self.attack_bitboards@[j as int].0, s)) by {
                    if bit64(attacked_squares.0, s) {
                        if bit64(prev, s) {
                            let j = choose|j: u64|
                                j < i && #[trigger] bit64(
                                    self.color_bitboards@[color.spec_index()].0,
                                    j,
                                ) && bit64(self.attack_bitboards@[j as int].0, s);
                            assert(j < i + 1 && bit64(
                                self.color_bitboards@[color.spec_index()].0,
                                j,
                            ) && bit64(self.attack_bitboards@[j as int].0, s));
                        } else {
                            assert(on_square);
                            assert(bit64(self.color_bitboards@[color.spec_index()].0, i as u64)
                                && bit64(self.attack_bitboards@[i as int].0, s));
                        }
                    } else {
                        assert forall|j: u64|
                            j < i + 1 && #[trigger] bit64(
                                self.color_bitboards@[color.spec_index()].0,
                                j,
                            ) implies !bit64(self.attack_bitboards@[j as int].0, s) by {
                            if j < i {
                                assert(!bit64(prev, s) ==> !(bit64(
                                    self.color_bitboards@[color.spec_index()].0,
                                    j,
                                ) && bit64(self.attack_bitboards@[j as int].0, s)));
                            } else {
                                if on_square && bit64(self.attack_bitboards@[j as int].0, s) {
                                    assert(bit64(attacked_squares.0, s));
                                }
                            }
                        }
                    }
                }
            }
            i = i + 1;
        }
        attacked_squares
    }
}


/// The halfmove clock after a move: reset by a capture or a pawn move,
/// advanced otherwise.
pub open spec fn mm_hmc(v: BoardView, from: u8, to: u8) -> u8 {
    if fpi(v.pb, from) == 5 {
        0
    } else if fpi(v.pb, to) != 6 {
        0
    } else {
        (v.state.half_move_counter + 1) as u8
    }
}

/// The castling rights after a move: capturing a rook on its home square,
/// or moving a king or a rook, takes rights away.
pub open spec fn mm_rights(v: BoardView, from: u8, to: u8) -> u8 {
    let r = v.state.castling_rights.0;
    let r0 = if fpi(v.pb, to) != 6 && fpi(v.pb, to) == 0 {
        if to == 56 {
            r & !Castling::BLACK_QUEEN_SIDE
        } else if to == 63 {
            r & !Castling::BLACK_KING_SIDE
        } else if to == 0 {
            r & !Castling::WHITE_QUEEN_SIDE
        } else if to == 7 {
            r & !Castling::WHITE_KING_SIDE
        } else {
            r
        }
    } else {
        r
    };
    let p = fpi(v.pb, from);
    let c = col_at(v.cb, from);
    if p == 4 {
        if c == Color::Black {
            r0 & !Castling::BLACK_CASTLING
        } else {
            r0 & !Castling::WHITE_CASTLING
        }
    } else if p == 0 {
        if c == Color::Black {
            if from == 56 {
                r0 & !Castling::BLACK_QUEEN_SIDE
            } else if from == 63 {
                r0 & !Castling::BLACK_KING_SIDE
            } else {
                r0
            }
        } else {
            if from == 0 {
                r0 & !Castling::WHITE_QUEEN_SIDE
            } else if from == 7 {
                r0 & !Castling::WHITE_KING_SIDE
            } else {
                r0
            }
        }
    } else {
        r0
    }
}

/// The en-passant target after a move: the skipped square after a double
/// pawn push, nothing otherwise.
pub open spec fn mm_ep(v: BoardView, from: u8, to: u8) -> Option<u8> {
    if fpi(v.pb, from) == 5 {
        if from / 8 == 1 && to / 8 == 3 {
            Some((from + 8) as u8)
        } else if from / 8 == 6 && to / 8 == 4 {
            Some((from - 8) as u8)
        } else {
            None
        }
    } else {
        None
    }
}

/// The whole game state after a move: rights and clock updated, the turn
/// passed to the other side, a draw recorded when the clock reaches 100.
pub open spec fn mm_state(v: BoardView, from: u8, to: u8) -> State {
    State {
        castling_rights: CastlingRights(mm_rights(v, from, to)),
        en_passant_square: v.state.en_passant_square,
        half_move_counter: mm_hmc(v, from, to),
        full_move_counter: v.state.full_move_counter,
        active_player: v.state.active_player.spec_not(),
        game_result: if mm_hmc(v, from, to) == 100 {
            GameResult(Results::DRAW)
        } else {
            v.state.game_result
        },
    }
}

/// A copy of a board list, element for element.
fn clone_bitboards(v: &Vec<BitBoard>) -> (r: Vec<BitBoard>)
    ensures
        r@ == v@,
{
    let mut r: Vec<BitBoard> = Vec::new();
    let mut i: usize = 0;
    while i < v.len()
        invariant
            i <= v.len(),
            r@ == v@.subrange(0, i as int),
        decreases v.len() - i,
    {
        r.push(v[i]);
        i = i + 1;
    }
    proof {
        assert(v@.subrange(0, v@.len() as int) =~= v@);
    }
    r
}

/// A copy of a move list, element for element.
fn clone_moves(v: &Vec<(u8, u8)>) -> (r: Vec<(u8, u8)>)
    ensures
        r@ == v@,
{
    let mut r: Vec<(u8, u8)> = Vec::new();
    let mut i: usize = 0;
    while i < v.len()
        invariant
            i <= v.len(),
            r@ == v@.subrange(0, i as int),
        decreases v.len() - i,
    {
        r.push(v[i]);
        i = i + 1;
    }
    proof {
        assert(v@.subrange(0, v@.len() as int) =~= v@);
    }
    r
}

impl Position {
    #[verifier::rlimit(100)]
    #[verifier::spinoff_prover]
    pub fn make_move(&mut self, from: &u8, to: &u8)
        requires
            old(self).wf(),
            *from < 64,
            *to < 64,
            *from != *to,
            (old(self).spec_piece_at(*from) is Some),
            !(old(self).spec_piece_at(*to) is Some) ==> old(self).state.half_move_counter < 255,
        ensures
            final(self).color_bitboards@ == mm_colors(
                old(self).color_bitboards@,
                old(self).piece_bitboards@,
                *from,
                *to,
            ),
            final(self).piece_bitboards@ == mm_pieces(old(self).piece_bitboards@, *from, *to),
            final(self).state == mm_state(old(self)@, *from, *to),
            final(self).en_passant_square == mm_ep(old(self)@, *from, *to),
            final(self).move_history@ == old(self).move_history@.push((*from, *to)),
            final(self).attack_bitboards@ == old(self).attack_bitboards@,
            final(self).attacked_by_white == old(self).attacked_by_white,
            final(self).attacked_by_black == old(self).attacked_by_black,
            final(self).check == old(self).check,
            final(self).wf(),
    {
        let (piece, color) = self.piece_at(*from).unwrap();
        // Check for captures and update halfmove counter
        if self.piece_at(*to).is_some() {
            self.state.half_move_counter = 0;
            // Remove the captured piece from the color and piece bitboards
            let (captured_piece, captured_color) = self.piece_at(*to).unwrap();
            // The piece code is the index of its board.
            let captured_piece_index = captured_piece as usize;
            if captured_piece_index == 0 {
                if *to == 56 {
                    self.state.castling_rights.0 = self.state.castling_rights.0
                        & !Castling::BLACK_QUEEN_SIDE;
                } else if *to == 63 {
                    self.state.castling_rights.0 = self.state.castling_rights.0
                        & !Castling::BLACK_KING_SIDE;
                } else if *to == 0 {
                    self.state.castling_rights.0 = self.state.castling_rights.0
                        & !Castling::WHITE_QUEEN_SIDE;
                } else if *to == 7 {
                    self.state.castling_rights.0 = self.state.castling_rights.0
                        & !Castling::WHITE_KING_SIDE;
                }
            }
            let to_mask = BitBoard::from_square(*to);
            let ci = captured_color.index();
            self.color_bitboards.set(ci, BitBoard(self.color_bitboards[ci].0 ^ to_mask.0));
            self.piece_bitboards.set(
                captured_piece_index,
                BitBoard(self.piece_bitboards[captured_piece_index].0 ^ to_mask.0),
            );
        } else {
            self.state.half_move_counter = self.state.half_move_counter + 1;
        }
        // Update castling rights and the en passant square
        if piece == Piece::KING {
            match color {
                Color::Black => {
                    self.state.castling_rights.0 = self.state.castling_rights.0
                        & !Castling::BLACK_CASTLING;
                },
                Color::White => {
                    self.state.castling_rights.0 = self.state.castling_rights.0
                        & !Castling::WHITE_CASTLING;
                },
            }
            self.en_passant_square = None;
        } else if piece == Piece::ROOK {
            match color {
                Color::Black => {
                    if *from == 56 {
                        self.state.castling_rights.0 = self.state.castling_rights.0
                            & !Castling::BLACK_QUEEN_SIDE;
                    } else if *from == 63 {
                        self.state.castling_rights.0 = self.state.castling_rights.0
                            & !Castling::BLACK_KING_SIDE;
                    }
                },
                Color::White => {
                    if *from == 0 {
                        self.state.castling_rights.0 = self.state.castling_rights.0
                            & !Castling::WHITE_QUEEN_SIDE;
                    } else if *from == 7 {
                        self.state.castling_rights.0 = self.state.castling_rights.0
                            & !Castling::WHITE_KING_SIDE;
                    }
                },
            }
            self.en_passant_square = None;
        } else if piece == Piece::PAWN {
            self.state.half_move_counter = 0;
            // Set the en passant square if the pawn moved two squares
            if *from / 8 == 1 && *to / 8 == 3 {
                self.en_passant_square = Some(*from + 8);
            } else if *from / 8 == 6 && *to / 8 == 4 {
                self.en_passant_square = Some(*from - 8);
            } else {
                self.en_passant_square = None;
            }
        } else {
            self.en_passant_square = None;
        }
        // Move the piece on its color and piece boards
        let from_mask = BitBoard::from_square(*from);
        let to_mask = BitBoard::from_square(*to);
        let piece_index = piece as usize;
        let mi = color.index();
        self.color_bitboards.set(mi, BitBoard(self.color_bitboards[mi].0 ^ from_mask.0));
        self.color_bitboards.set(mi, BitBoard(self.color_bitboards[mi].0 | to_mask.0));
        self.piece_bitboards.set(piece_index, BitBoard(self.piece_bitboards[piece_index].0 ^ from_mask.0));
        self.piece_bitboards.set(piece_index, BitBoard(self.piece_bitboards[piece_index].0 | to_mask.0));

        self.state.switch_active_player();

        // Check for draw by 50 move rule
        if self.state.half_move_counter == 100 {
            self.state.game_result = GameResult(Results::DRAW);
        }
        self.move_history.push((*from, *to));

        // The board invariant survives the move, where the original
        // re-checked it at run time.
        proof {
            lemma_make_move_ok(
                old(self).color_bitboards@,
                old(self).piece_bitboards@,
                *from,
                *to,
            );
        }
    }

    /// A copy of this position: search explores copies, never the caller's
    /// board.
    pub fn duplicate(&self) -> (r: Position)
        ensures
            r.color_bitboards@ == self.color_bitboards@,
            r.piece_bitboards@ == self.piece_bitboards@,
            r.state == self.state,
            r.attack_bitboards@ == self.attack_bitboards@,
            r.attacked_by_white == self.attacked_by_white,
            r.attacked_by_black == self.attacked_by_black,
            r.move_history@ == self.move_history@,
            r.en_passant_square == self.en_passant_square,
            r.check == self.check,
    {
        Position {
            color_bitboards: clone_bitboards(&self.color_bitboards),
            piece_bitboards: clone_bitboards(&self.piece_bitboards),
            state: self.state,
            attack_bitboards: clone_bitboards(&self.attack_bitboards),
            attacked_by_white: self.attacked_by_white,
            attacked_by_black: self.attacked_by_black,
            move_history: clone_moves(&self.move_history),
            en_passant_square: self.en_passant_square,
            check: self.check,
        }
    }

    pub fn is_promotion(&self, start: &u8, end: &u8) -> (r: bool)
        requires
            *start < 64,
            *end < 64,
            self.well_sized(),
            (self.spec_piece_at(*start) is Some),
        ensures
            r == self.spec_is_promotion(*start, *end),
    {
        let (piece, color) = self.piece_at(*start).unwrap();
        if piece == Piece::PAWN {
            if color == Color::White && *end / 8 == 7 || color == Color::Black && *end / 8 == 0 {
                return true;
            }
        }
        false
    }

    /// Whether the piece on `start` is a pawn bound for its last rank.
    pub open spec fn spec_is_promotion(self, start: u8, end: u8) -> bool {
        let p = self.spec_piece_index_at(start);
        let c = self.spec_color_at(start);
        p == 5 && (c == Color::White && end / 8 == 7 || c == Color::Black && end / 8 == 0)
    }
}


/// The color occupancy boards of the starting position.
pub open spec fn initial_colors() -> Seq<BitBoard> {
    seq![
        BitBoard(0b1111111111111111),
        BitBoard(0b1111111111111111000000000000000000000000000000000000000000000000),
    ]
}

/// The piece boards of the starting position: rooks, knights, bishops,
/// queens, kings, pawns.
pub open spec fn initial_pieces() -> Seq<BitBoard> {
    seq![
        BitBoard(0b1000000100000000000000000000000000000000000000000000000010000001),
        BitBoard(0b100001000000000000000000000000000000000000000000000000001000010),
        BitBoard(0b10010000000000000000000000000000000000000000000000000000100100),
        BitBoard(0b100000000000000000000000000000000000000000000000000000001000),
        BitBoard(0b1000000000000000000000000000000000000000000000000000000010000),
        BitBoard(0b11111111000000000000000000000000000000001111111100000000),
    ]
}

/// The attack board of each square in the starting position: the knights
/// and the pawns of both sides are the pieces with moves.
pub open spec fn initial_attack_at(i: int) -> u64 {
    if i == 1 {
        0b1010000000000000000
    } else if i == 6 {
        0b101000000000000000000000
    } else if i == 8 {
        0b110000000000000000
    } else if i == 9 {
        0b1010000000000000000
    } else if i == 10 {
        0b10100000000000000000
    } else if i == 11 {
        0b101000000000000000000
    } else if i == 12 {
        0b1010000000000000000000
    } else if i == 13 {
        0b10100000000000000000000
    } else if i == 14 {
        0b101000000000000000000000
    } else if i == 15 {
        0b10000000000000000000000
    } else if i == 48 {
        0b100000000000000000000000000000000000000000
    } else if i == 49 {
        0b1010000000000000000000000000000000000000000
    } else if i == 50 {
        0b10100000000000000000000000000000000000000000
    } else if i == 51 {
        0b101000000000000000000000000000000000000000000
    } else if i == 52 {
        0b1010000000000000000000000000000000000000000000
    } else if i == 53 {
        0b10100000000000000000000000000000000000000000000
    } else if i == 54 {
        0b101000000000000000000000000000000000000000000000
    } else if i == 55 {
        0b10000000000000000000000000000000000000000000000
    } else if i == 57 {
        0b1010000000000000000000000000000000000000000
    } else if i == 62 {
        0b101000000000000000000000000000000000000000000000
    } else {
        0
    }
}

pub open spec fn initial_attacks() -> Seq<BitBoard> {
    Seq::new(64, |i: int| BitBoard(initial_attack_at(i)))
}

impl Position {
    pub fn new() -> (r: Position)
        ensures
            r.color_bitboards@ == initial_colors(),
            r.piece_bitboards@ == initial_pieces(),
            r.state == (State {
                castling_rights: CastlingRights(Castling::ANY_CASTLING),
                en_passant_square: None,
                half_move_counter: 0,
                full_move_counter: 1,
                active_player: Color::White,
                game_result: GameResult(Results::ONGOING),
            }),
            r.attack_bitboards@ == initial_attacks(),
            r.attacked_by_white.0 == 0b111111110000000000000000,
            r.attacked_by_black.0 == 0b111111110000000000000000000000000000000000000000,
            r.move_history@ == Seq::<(u8, u8)>::empty(),
            (r.en_passant_square is None),
            r.check == false,
            r.wf(),
    {
        let mut bitboards: Vec<BitBoard> = Vec::new();
        // Initialize the bitboard for both colors in their starting positions
        // White
        bitboards.push(BitBoard::from_u64(0b1111111111111111));
        // Black
        bitboards.push(
            BitBoard::from_u64(0b1111111111111111000000000000000000000000000000000000000000000000),
        );

        // Initialize the piece bitboards for the respective starting positions
        let mut piece_boards: Vec<BitBoard> = Vec::new();
        // Rooks
        piece_boards.push(
            BitBoard::from_u64(0b1000000100000000000000000000000000000000000000000000000010000001),
        );
        // Knights
        piece_boards.push(
            BitBoard::from_u64(0b100001000000000000000000000000000000000000000000000000001000010),
        );
        // Bishops
        piece_boards.push(
            BitBoard::from_u64(0b10010000000000000000000000000000000000000000000000000000100100),
        );
        // Queens
        piece_boards.push(
            BitBoard::from_u64(0b100000000000000000000000000000000000000000000000000000001000),
        );
        // Kings
        piece_boards.push(
            BitBoard::from_u64(0b1000000000000000000000000000000000000000000000000000000010000),
        );
        // Pawns
        piece_boards.push(
            BitBoard::from_u64(0b11111111000000000000000000000000000000001111111100000000),
        );

        // Initialize the attack bitboards for each square
        let mut attacks: Vec<BitBoard> = Vec::new();
        let mut i: usize = 0;
        while i < 64
            invariant
                i <= 64,
                attacks@.len() == i,
                forall|j: int| 0 <= j < i ==> attacks@[j].0 == 0,
            decreases 64 - i,
        {
            attacks.push(BitBoard::empty());
            i = i + 1;
        }
        // White knights
        attacks.set(1, BitBoard::from_u64(0b1010000000000000000));
        attacks.set(6, BitBoard::from_u64(0b101000000000000000000000));

        // White pawns
        attacks.set(8, BitBoard::from_u64(0b110000000000000000));
        attacks.set(9, BitBoard::from_u64(0b1010000000000000000));
        attacks.set(10, BitBoard::from_u64(0b10100000000000000000));
        attacks.set(11, BitBoard::from_u64(0b101000000000000000000));
        attacks.set(12, BitBoard::from_u64(0b1010000000000000000000));
        attacks.set(13, BitBoard::from_u64(0b10100000000000000000000));
        attacks.set(14, BitBoard::from_u64(0b101000000000000000000000));
        attacks.set(15, BitBoard::from_u64(0b10000000000000000000000));

        // Black pawns
        attacks.set(48, BitBoard::from_u64(0b100000000000000000000000000000000000000000));
        attacks.set(49, BitBoard::from_u64(0b1010000000000000000000000000000000000000000));
        attacks.set(50, BitBoard::from_u64(0b10100000000000000000000000000000000000000000));
        attacks.set(51, BitBoard::from_u64(0b101000000000000000000000000000000000000000000));
        attacks.set(52, BitBoard::from_u64(0b1010000000000000000000000000000000000000000000));
        attacks.set(53, BitBoard::from_u64(0b10100000000000000000000000000000000000000000000));
        attacks.set(54, BitBoard::from_u64(0b101000000000000000000000000000000000000000000000));
        attacks.set(55, BitBoard::from_u64(0b10000000000000000000000000000000000000000000000));

        // Black knights
        attacks.set(57, BitBoard::from_u64(0b1010000000000000000000000000000000000000000));
        attacks.set(62, BitBoard::from_u64(0b101000000000000000000000000000000000000000000000));

        let attacked_by_white = BitBoard::from_u64(0b111111110000000000000000);
        let attacked_by_black = BitBoard::from_u64(
            0b111111110000000000000000000000000000000000000000,
        );

        let move_history: Vec<(u8, u8)> = Vec::new();
        let check = false;
        let en_passant_square: Option<u8> = None;

        let r = Position {
            color_bitboards: bitboards,
            piece_bitboards: piece_boards,
            state: State::new(),
            attack_bitboards: attacks,
            attacked_by_white,
            attacked_by_black,
            move_history,
            check,
            en_passant_square,
        };
        // The starting boards satisfy the invariant, where the original
        // re-checked the consistency half at run time.
        proof {
            lemma_initial_boards_ok();
            assert(r.color_bitboards@ =~= initial_colors());
            assert(r.piece_bitboards@ =~= initial_pieces());
            assert(r.attack_bitboards@ =~= initial_attacks());
        }
        r
    }

    pub fn colorflip(&mut self) -> (r: Position)
        requires
            old(self).well_sized(),
        ensures
            *final(self) == *old(self),
            r.color_bitboards@ == seq![
                BitBoard(crate::bitboard::spec_swap_bytes(old(self).color_bitboards@[1].0)),
                BitBoard(crate::bitboard::spec_swap_bytes(old(self).color_bitboards@[0].0)),
            ],
            r.piece_bitboards@.len() == 6,
            forall|j: int|
                0 <= j < 6 ==> #[trigger] r.piece_bitboards@[j].0
                    == crate::bitboard::spec_swap_bytes(old(self).piece_bitboards@[j].0),
            r.state == (State {
                active_player: old(self).state.active_player.spec_not(),
                ..old(self).state
            }),
            r.attack_bitboards@ == initial_attacks(),
            r.move_history@ == Seq::<(u8, u8)>::empty(),
            (r.en_passant_square is None),
            r.check == false,
            old(self).wf() ==> r.wf(),
    {
        let mut new_position = Position::new();
        // Flip the color bitboards
        new_position.color_bitboards.set(0, self.color_bitboards[1].colorflip());
        new_position.color_bitboards.set(1, self.color_bitboards[0].colorflip());
        // Flip the piece bitboards
        let mut i: usize = 0;
        while i < 6
            invariant
                i <= 6,
                self.well_sized(),
                new_position.piece_bitboards@.len() == 6,
                forall|j: int|
                    0 <= j < i ==> #[trigger] new_position.piece_bitboards@[j].0
                        == crate::bitboard::spec_swap_bytes(self.piece_bitboards@[j].0),
                forall|j: int|
                    i <= j < 6 ==> #[trigger] new_position.piece_bitboards@[j]
                        == initial_pieces()[j],
                new_position.color_bitboards@.len() == 2,
                new_position.color_bitboards@[0].0 == crate::bitboard::spec_swap_bytes(
                    self.color_bitboards@[1].0,
                ),
                new_position.color_bitboards@[1].0 == crate::bitboard::spec_swap_bytes(
                    self.color_bitboards@[0].0,
                ),
                new_position.attack_bitboards@ == initial_attacks(),
                new_position.attacked_by_white.0 == 0b111111110000000000000000u64,
                new_position.attacked_by_black.0
                    == 0b111111110000000000000000000000000000000000000000u64,
                new_position.move_history@ == Seq::<(u8, u8)>::empty(),
                (new_position.en_passant_square is None),
                new_position.check == false,
            decreases 6 - i,
        {
            let flipped = self.piece_bitboards[i].colorflip();
            new_position.piece_bitboards.set(i, flipped);
            i = i + 1;
        }
        new_position.state.castling_rights = self.state.castling_rights.not();
        new_position.state = self.state;
        new_position.state.switch_active_player();
        proof {
            assert(new_position.color_bitboards@ =~= seq![
                BitBoard(crate::bitboard::spec_swap_bytes(self.color_bitboards@[1].0)),
                BitBoard(crate::bitboard::spec_swap_bytes(self.color_bitboards@[0].0)),
            ]);
            if self.wf() {
                lemma_colorflip_ok(
                    self.color_bitboards@,
                    self.piece_bitboards@,
                    new_position.color_bitboards@,
                    new_position.piece_bitboards@,
                );
            }
        }
        new_position
    }

    pub fn promote_pawn(&mut self, square: u8, target_piece: u8)
        requires
            old(self).wf(),
            square < 64,
            target_piece <= 3,
            bit64(old(self).piece_bitboards@[5].0, square as u64),
        ensures
            final(self).color_bitboards@ == old(self).color_bitboards@,
            final(self).piece_bitboards@ == pp_pieces(
                old(self).piece_bitboards@,
                square,
                target_piece,
            ),
            final(self).state == old(self).state,
            final(self).attack_bitboards@ == old(self).attack_bitboards@,
            final(self).attacked_by_white == old(self).attacked_by_white,
            final(self).attacked_by_black == old(self).attacked_by_black,
            final(self).move_history@ == old(self).move_history@,
            final(self).en_passant_square == old(self).en_passant_square,
            final(self).check == old(self).check,
            final(self).wf(),
    {
        let mask = BitBoard::from_square(square);
        let color = if self.color_bitboards[0].contains(square) {
            Color::White
        } else {
            Color::Black
        };
        // The piece code is the index of its board.
        let piece_index = target_piece as usize;
        let ci = color.index();

        self.piece_bitboards.set(5, BitBoard(self.piece_bitboards[5].0 ^ mask.0));
        self.color_bitboards.set(ci, BitBoard(self.color_bitboards[ci].0 ^ mask.0));
        self.piece_bitboards.set(piece_index, BitBoard(self.piece_bitboards[piece_index].0 | mask.0));
        self.color_bitboards.set(ci, BitBoard(self.color_bitboards[ci].0 | mask.0));

        proof {
            lemma_promote_ok(old(self).color_bitboards@, old(self).piece_bitboards@, square, target_piece);
            assert(final(self).color_bitboards@ =~= old(self).color_bitboards@);
        }
    }
}

/// The piece boards after promoting the pawn on `square`: the pawn board
/// loses the square, the target piece board gains it.
pub open spec fn pp_pieces(pb: Seq<BitBoard>, square: u8, target_piece: u8) -> Seq<BitBoard> {
    let m = 1u64 << (square as u64);
    let s0 = pb.update(5, BitBoard(pb[5].0 ^ m));
    s0.update(target_piece as int, BitBoard(s0[target_piece as int].0 | m))
}

/// Promotion keeps the board invariant: the promoted square stays occupied
/// by the same side, and the pawn board alone loses it. The color boards
/// lose the square and gain it back, so they end unchanged.
pub(crate) proof fn lemma_promote_ok(cb: Seq<BitBoard>, pb: Seq<BitBoard>, square: u8, target_piece: u8)
    requires
        cb.len() == 2,
        pb.len() == 6,
        boards_ok(cb, pb),
        square < 64,
        target_piece <= 3,
        bit64(pb[5].0, square as u64),
    ensures
        boards_ok(cb, pp_pieces(pb, square, target_piece)),
        ({
            let ci = col_at(cb, square).spec_index();
            let m = 1u64 << (square as u64);
            cb.update(ci, BitBoard(cb[ci].0 ^ m)).update(
                ci,
                BitBoard((cb[ci].0 ^ m) | m),
            ) =~= cb
        }),
{
    lemma_or_bit();
    lemma_xor_bit();
    lemma_single_bit();
    crate::bits::lemma_xor_or_same();
    let pb2 = pp_pieces(pb, square, target_piece);
    assert(occ_s(cb, square as u64) == piece_s(pb, square as u64));
    assert forall|i: u64| i < 64 implies (#[trigger] occ_s(cb, i) == piece_s(pb2, i)) by {
        mm_facts_at(cb, pb, square, square, i);
    }
    assert forall|a: int, b: int, i: u64|
        0 <= a < b < 6 && i < 64 implies !(#[trigger] bit64(pb2[a].0, i) && #[trigger] bit64(
        pb2[b].0,
        i,
    )) by {
        mm_facts_at(cb, pb, square, square, i);
    }
    let ci = col_at(cb, square).spec_index();
    let m = 1u64 << (square as u64);
    assert(bit64(cb[ci].0, square as u64));
    assert((cb[ci].0 ^ m) | m == cb[ci].0);
}

/// Mirroring both sides' boards keeps the board invariant: each square of
/// the flipped board answers for its mirrored square on the original.
proof fn lemma_colorflip_ok(cb: Seq<BitBoard>, pb: Seq<BitBoard>, cb2: Seq<BitBoard>, pb2: Seq<BitBoard>)
    requires
        cb.len() == 2,
        pb.len() == 6,
        cb2.len() == 2,
        pb2.len() == 6,
        boards_ok(cb, pb),
        cb2[0].0 == crate::bitboard::spec_swap_bytes(cb[1].0),
        cb2[1].0 == crate::bitboard::spec_swap_bytes(cb[0].0),
        forall|j: int|
            0 <= j < 6 ==> #[trigger] pb2[j].0 == crate::bitboard::spec_swap_bytes(pb[j].0),
    ensures
        boards_ok(cb2, pb2),
{
    crate::bitboard::lemma_swap_bit();
    assert forall|i: u64| i < 64 implies (#[trigger] occ_s(cb2, i) == piece_s(pb2, i)) by {
        mm_swap_facts_at(cb, pb, i);
    }
    assert forall|i: u64| i < 64 implies !(#[trigger] bit64(cb2[0].0, i) && bit64(
        cb2[1].0,
        i,
    )) by {
        mm_swap_facts_at(cb, pb, i);
    }
    assert forall|a: int, b: int, i: u64|
        0 <= a < b < 6 && i < 64 implies !(#[trigger] bit64(pb2[a].0, i) && #[trigger] bit64(
        pb2[b].0,
        i,
    )) by {
        mm_swap_facts_at(cb, pb, i);
    }
}

/// The invariant facts about the mirrored square `i ^ 56`.
proof fn mm_swap_facts_at(cb: Seq<BitBoard>, pb: Seq<BitBoard>, i: u64)
    requires
        cb.len() == 2,
        pb.len() == 6,
        boards_ok(cb, pb),
        i < 64,
    ensures
        (i ^ 56) < 64,
        occ_s(cb, i ^ 56) == piece_s(pb, i ^ 56),
        !(bit64(cb[0].0, i ^ 56) && bit64(cb[1].0, i ^ 56)),
        !(bit64(pb[0].0, i ^ 56) && bit64(pb[1].0, i ^ 56)),
        !(bit64(pb[0].0, i ^ 56) && bit64(pb[2].0, i ^ 56)),
        !(bit64(pb[0].0, i ^ 56) && bit64(pb[3].0, i ^ 56)),
        !(bit64(pb[0].0, i ^ 56) && bit64(pb[4].0, i ^ 56)),
        !(bit64(pb[0].0, i ^ 56) && bit64(pb[5].0, i ^ 56)),
        !(bit64(pb[1].0, i ^ 56) && bit64(pb[2].0, i ^ 56)),
        !(bit64(pb[1].0, i ^ 56) && bit64(pb[3].0, i ^ 56)),
        !(bit64(pb[1].0, i ^ 56) && bit64(pb[4].0, i ^ 56)),
        !(bit64(pb[1].0, i ^ 56) && bit64(pb[5].0, i ^ 56)),
        !(bit64(pb[2].0, i ^ 56) && bit64(pb[3].0, i ^ 56)),
        !(bit64(pb[2].0, i ^ 56) && bit64(pb[4].0, i ^ 56)),
        !(bit64(pb[2].0, i ^ 56) && bit64(pb[5].0, i ^ 56)),
        !(bit64(pb[3].0, i ^ 56) && bit64(pb[4].0, i ^ 56)),
        !(bit64(pb[3].0, i ^ 56) && bit64(pb[5].0, i ^ 56)),
        !(bit64(pb[4].0, i ^ 56) && bit64(pb[5].0, i ^ 56)),
{
    assert((i ^ 56) < 64) by (bit_vector)
        requires
            i < 64,
    ;
    let k = i ^ 56;
    assert(occ_s(cb, k) == piece_s(pb, k));
}

/// The starting boards are consistent and disjoint.
proof fn lemma_initial_boards_ok()
    ensures
        boards_ok(initial_colors(), initial_pieces()),
{
    lemma_disjoint_bits();
    let c0: u64 = 0b1111111111111111;
    let c1: u64 = 0b1111111111111111000000000000000000000000000000000000000000000000;
    let p0: u64 = 0b1000000100000000000000000000000000000000000000000000000010000001;
    let p1: u64 = 0b100001000000000000000000000000000000000000000000000000001000010;
    let p2: u64 = 0b10010000000000000000000000000000000000000000000000000000100100;
    let p3: u64 = 0b100000000000000000000000000000000000000000000000000000001000;
    let p4: u64 = 0b1000000000000000000000000000000000000000000000000000000010000;
    let p5: u64 = 0b11111111000000000000000000000000000000001111111100000000;
    assert(c0 & c1 == 0 && p0 & p1 == 0 && p0 & p2 == 0 && p0 & p3 == 0 && p0 & p4 == 0 && p0 & p5
        == 0 && p1 & p2 == 0 && p1 & p3 == 0 && p1 & p4 == 0 && p1 & p5 == 0 && p2 & p3 == 0 && p2
        & p4 == 0 && p2 & p5 == 0 && p3 & p4 == 0 && p3 & p5 == 0 && p4 & p5 == 0) by (bit_vector)
        requires
            c0 == 0b1111111111111111u64,
            c1 == 0b1111111111111111000000000000000000000000000000000000000000000000u64,
            p0 == 0b1000000100000000000000000000000000000000000000000000000010000001u64,
            p1 == 0b100001000000000000000000000000000000000000000000000000001000010u64,
            p2 == 0b10010000000000000000000000000000000000000000000000000000100100u64,
            p3 == 0b100000000000000000000000000000000000000000000000000000001000u64,
            p4 == 0b1000000000000000000000000000000000000000000000000000000010000u64,
            p5 == 0b11111111000000000000000000000000000000001111111100000000u64,
    ;
    assert(forall|i: u64|
        i < 64 ==> (((c0 & (1u64 << i)) != 0 || (c1 & (1u64 << i)) != 0) == ((p0 & (1u64 << i))
            != 0 || (p1 & (1u64 << i)) != 0 || (p2 & (1u64 << i)) != 0 || (p3 & (1u64 << i)) != 0
            || (p4 & (1u64 << i)) != 0 || (p5 & (1u64 << i)) != 0))) by (bit_vector)
        requires
            c0 == 0b1111111111111111u64,
            c1 == 0b1111111111111111000000000000000000000000000000000000000000000000u64,
            p0 == 0b1000000100000000000000000000000000000000000000000000000010000001u64,
            p1 == 0b100001000000000000000000000000000000000000000000000000001000010u64,
            p2 == 0b10010000000000000000000000000000000000000000000000000000100100u64,
            p3 == 0b100000000000000000000000000000000000000000000000000000001000u64,
            p4 == 0b1000000000000000000000000000000000000000000000000000000010000u64,
            p5 == 0b11111111000000000000000000000000000000001111111100000000u64,
    ;
    assert forall|i: u64| i < 64 implies (#[trigger] occ_s(initial_colors(), i) == piece_s(
        initial_pieces(),
        i,
    )) by {
        assert(((c0 & (1u64 << i)) != 0 || (c1 & (1u64 << i)) != 0) == ((p0 & (1u64 << i)) != 0 || (
        p1 & (1u64 << i)) != 0 || (p2 & (1u64 << i)) != 0 || (p3 & (1u64 << i)) != 0 || (p4 & (1u64
            << i)) != 0 || (p5 & (1u64 << i)) != 0));
    }
}



impl Position {
    pub fn make_castling_move(&mut self, from: &u8, to: &u8)
        requires
            old(self).wf(),
            *from < 64,
            *to < 64,
            *from != *to,
            old(self).state.half_move_counter < 255,
            (old(self).spec_piece_at(*from) matches Some((p, _)) && (p == 0 || p == 4)),
            *to == 3 || *to == 5 || *to == 59 || *to == 61,
            !old(self).occ_bit(*to as u64),
        ensures
            final(self).color_bitboards@ == mm_colors(
                old(self).color_bitboards@,
                old(self).piece_bitboards@,
                *from,
                *to,
            ),
            final(self).piece_bitboards@ == mm_pieces(old(self).piece_bitboards@, *from, *to),
            final(self).state == (State {
                half_move_counter: (old(self).state.half_move_counter + 1) as u8,
                ..old(self).state
            }),
            final(self).move_history@ == old(self).move_history@.push((*from, *to)),
            final(self).attack_bitboards@ == old(self).attack_bitboards@.update(
                *from as int,
                BitBoard(0),
            ),
            final(self).attacked_by_white == old(self).attacked_by_white,
            final(self).attacked_by_black == old(self).attacked_by_black,
            final(self).en_passant_square == old(self).en_passant_square,
            final(self).check == old(self).check,
            final(self).wf(),
    {
        let piece = self.piece_at(*from);
        let piece_type = piece.unwrap().0;
        let color = piece.unwrap().1;
        let piece_index: usize = if piece_type == Piece::ROOK {
            0
        } else {
            4
        };

        // The destination square for the hopping rook is D1, D8, F1 or F8.
        let rook_to_mask = BitBoard::from_square(*to);
        let rook_mask = BitBoard::from_square(*from);
        let ci = color.index();
        proof {
            // The destination is empty, so no piece board holds it.
            assert(!old(self).piece_bit(*to as u64));
        }
        self.color_bitboards.set(ci, BitBoard(self.color_bitboards[ci].0 ^ rook_mask.0));
        self.color_bitboards.set(ci, BitBoard(self.color_bitboards[ci].0 | rook_to_mask.0));
        self.piece_bitboards.set(piece_index, BitBoard(self.piece_bitboards[piece_index].0 ^ rook_mask.0));
        self.piece_bitboards.set(piece_index, BitBoard(self.piece_bitboards[piece_index].0 | rook_to_mask.0));

        self.move_history.push((*from, *to));
        self.state.half_move_counter = self.state.half_move_counter + 1;
        self.attack_bitboards.set(*from as usize, BitBoard::empty());

        proof {
            lemma_make_move_ok(
                old(self).color_bitboards@,
                old(self).piece_bitboards@,
                *from,
                *to,
            );
        }
    }
}


/// The whole view after the plain board move: boards, state, the move
/// recorded, everything else untouched.
pub open spec fn bv_make_move(v: BoardView, from: u8, to: u8) -> BoardView {
    BoardView {
        cb: mm_colors(v.cb, v.pb, from, to),
        pb: mm_pieces(v.pb, from, to),
        state: mm_state(v, from, to),
        ep: mm_ep(v, from, to),
        hist: v.hist.push((from, to)),
        ..v
    }
}

/// The whole view after the rook's castling hop: the rook moved, the clock
/// advanced, the hop recorded, the vacated square's attack board cleared.
pub open spec fn bv_castle(v: BoardView, from: u8, to: u8) -> BoardView {
    BoardView {
        cb: mm_colors(v.cb, v.pb, from, to),
        pb: mm_pieces(v.pb, from, to),
        state: State { half_move_counter: (v.state.half_move_counter + 1) as u8, ..v.state },
        ab: v.ab.update(from as int, BitBoard(0)),
        hist: v.hist.push((from, to)),
        ..v
    }
}

/// The whole view after a promotion: only the piece boards change.
pub open spec fn bv_promote(v: BoardView, square: u8, target: u8) -> BoardView {
    BoardView { pb: pp_pieces(v.pb, square, target), ..v }
}

/// Removing one piece from the board, from its color board and its piece
/// board at once, keeps the board invariant when the piece is really there.
pub proof fn lemma_remove_piece_ok(cb: Seq<BitBoard>, pb: Seq<BitBoard>, pi: int, sq: u8)
    requires
        cb.len() == 2,
        pb.len() == 6,
        boards_ok(cb, pb),
        sq < 64,
        0 <= pi < 6,
        bit64(pb[pi].0, sq as u64),
    ensures
        ({
            let m = 1u64 << (sq as u64);
            let ci = col_at(cb, sq).spec_index();
            boards_ok(cb.update(ci, BitBoard(cb[ci].0 ^ m)), pb.update(pi, BitBoard(pb[pi].0 ^ m)))
        }),
{
    lemma_or_bit();
    lemma_xor_bit();
    lemma_single_bit();
    let m = 1u64 << (sq as u64);
    let ci = col_at(cb, sq).spec_index();
    let cb2 = cb.update(ci, BitBoard(cb[ci].0 ^ m));
    let pb2 = pb.update(pi, BitBoard(pb[pi].0 ^ m));
    assert(occ_s(cb, sq as u64) == piece_s(pb, sq as u64));
    assert forall|i: u64| i < 64 implies (#[trigger] occ_s(cb2, i) == piece_s(pb2, i)) by {
        mm_facts_at(cb, pb, sq, sq, i);
    }
    assert forall|i: u64| i < 64 implies !(#[trigger] bit64(cb2[0].0, i) && bit64(
        cb2[1].0,
        i,
    )) by {
        mm_facts_at(cb, pb, sq, sq, i);
    }
    assert forall|a: int, b: int, i: u64|
        0 <= a < b < 6 && i < 64 implies !(#[trigger] bit64(pb2[a].0, i) && #[trigger] bit64(
        pb2[b].0,
        i,
    )) by {
        mm_facts_at(cb, pb, sq, sq, i);
    }
}


/// Round trip of a quiet move: moving a piece to an empty square and then
/// moving it back restores both the color boards and the piece boards. A
/// capture, a castling hop or a promotion is excluded: each of those edits
/// more than the moved piece.
pub proof fn lemma_move_round_trip(cb: Seq<BitBoard>, pb: Seq<BitBoard>, from: u8, to: u8)
    requires
        cb.len() == 2,
        pb.len() == 6,
        boards_ok(cb, pb),
        from < 64,
        to < 64,
        from != to,
        fpi(pb, from) != 6,
        fpi(pb, to) == 6,
        !occ_s(cb, to as u64),
    ensures
        mm_colors(mm_colors(cb, pb, from, to), mm_pieces(pb, from, to), to, from) =~= cb,
        mm_pieces(mm_pieces(pb, from, to), to, from) =~= pb,
{
    lemma_or_bit();
    lemma_xor_bit();
    lemma_single_bit();
    crate::bits::lemma_move_and_back();
    mm_facts_at(cb, pb, from, to, from as u64);
    mm_facts_at(cb, pb, from, to, to as u64);
    lemma_make_move_ok(cb, pb, from, to);
    let cb1 = mm_colors(cb, pb, from, to);
    let pb1 = mm_pieces(pb, from, to);
    let fm = 1u64 << (from as u64);
    let tm = 1u64 << (to as u64);
    let mi = col_at(cb, from).spec_index();
    let pi = fpi(pb, from) as int;
    assert(fpi(pb1, to) == fpi(pb, from));
    assert(fpi(pb1, from) == 6);
    assert(col_at(cb1, to) == col_at(cb, from));
    assert((((cb[mi].0 ^ fm) | tm) ^ tm) | fm == cb[mi].0);
    assert((((pb[pi].0 ^ fm) | tm) ^ tm) | fm == pb[pi].0);
    assert(mm_colors(cb1, pb1, to, from) =~= cb);
    assert(mm_pieces(pb1, to, from) =~= pb);
}

} // verus!
