use vstd::prelude::*;
use crate::bitboard::BitBoard;
use crate::bitboard::spec_swap_bytes;
use crate::bits::{popcnt, lemma_popcnt_from_bound};
use crate::position::Position;
use crate::state::Color;
use crate::magics::AttackTables;

verus! {

/* The static scoring of a position. The score is a pure function of the
/ boards: material weighed by game phase, and a tempo bonus for the side to
/ move. It is the opaque leaf the search calls; a richer heuristic could
/ stand here without touching the search. */

/// The midgame worth of each piece type, in centipawns.
pub open spec fn spec_value_mid(piece: int) -> u32 {
    if piece == 0 {
        1276
    } else if piece == 1 {
        781
    } else if piece == 2 {
        825
    } else if piece == 3 {
        2538
    } else if piece == 4 {
        0
    } else {
        124
    }
}

/// The endgame worth of each piece type, in centipawns.
pub open spec fn spec_value_end(piece: int) -> u32 {
    if piece == 0 {
        1380
    } else if piece == 1 {
        854
    } else if piece == 2 {
        915
    } else if piece == 3 {
        2682
    } else if piece == 4 {
        0
    } else {
        206
    }
}

/// White's material over the piece types below `k`, under the given
/// per-piece values.
pub open spec fn spec_material_upto(cb: Seq<BitBoard>, pb: Seq<BitBoard>, mid: bool, k: int) -> int
    decreases k,
{
    if k <= 0 {
        0
    } else {
        spec_material_upto(cb, pb, mid, k - 1) + popcnt(pb[k - 1].0 & cb[0].0) * (if mid {
            spec_value_mid(k - 1)
        } else {
            spec_value_end(k - 1)
        })
    }
}

/// White's material under the given per-piece values.
pub open spec fn spec_material_of(cb: Seq<BitBoard>, pb: Seq<BitBoard>, mid: bool) -> int {
    spec_material_upto(cb, pb, mid, 6)
}

/// White's non-pawn material over the piece types below `k`.
pub open spec fn spec_npm_upto(cb: Seq<BitBoard>, pb: Seq<BitBoard>, k: int) -> int
    decreases k,
{
    if k <= 0 {
        0
    } else {
        spec_npm_upto(cb, pb, k - 1) + (if k - 1 == 5 {
            0
        } else {
            popcnt(pb[k - 1].0 & cb[0].0) * spec_value_mid(k - 1)
        })
    }
}

/// White's non-pawn material.
pub open spec fn spec_npm_of(cb: Seq<BitBoard>, pb: Seq<BitBoard>) -> int {
    spec_npm_upto(cb, pb, 6)
}

/// The color boards of the mirrored position: black's board mirrored into
/// white's place and the other way round.
pub open spec fn flip_cb(cb: Seq<BitBoard>) -> Seq<BitBoard> {
    seq![BitBoard(spec_swap_bytes(cb[1].0)), BitBoard(spec_swap_bytes(cb[0].0))]
}

/// The piece boards of the mirrored position.
pub open spec fn flip_pb(pb: Seq<BitBoard>) -> Seq<BitBoard> {
    seq![
        BitBoard(spec_swap_bytes(pb[0].0)),
        BitBoard(spec_swap_bytes(pb[1].0)),
        BitBoard(spec_swap_bytes(pb[2].0)),
        BitBoard(spec_swap_bytes(pb[3].0)),
        BitBoard(spec_swap_bytes(pb[4].0)),
        BitBoard(spec_swap_bytes(pb[5].0)),
    ]
}

/// The phase value: how far the non-pawn material of both sides still puts
/// the game in the midgame, scaled to 0..128.
pub open spec fn spec_phase(cb: Seq<BitBoard>, pb: Seq<BitBoard>) -> int {
    let npm = spec_npm_of(cb, pb) + spec_npm_of(flip_cb(cb), flip_pb(pb));
    let clamped = if npm < 3915 {
        3915int
    } else if npm > 15258 {
        15258int
    } else {
        npm
    };
    ((clamped - 3915) * 128) / (15258 - 3915)
}

// Get the total piece value of white's side, weighed in centipawns
#[verifier::loop_isolation(false)]
pub fn get_material_value(pos: &Position, midgame: bool) -> (r: u32)
    requires
        pos.well_sized(),
    ensures
        r == spec_material_of(pos.color_bitboards@, pos.piece_bitboards@, midgame),
        r <= 64 * 6 * 2682,
{
    let mut total_piece_value: u32 = 0;
    let mut piece: usize = 0;
    while piece < 6
        invariant
            piece <= 6,
            total_piece_value <= piece * 64 * 2682,
            total_piece_value == spec_material_upto(
                pos.color_bitboards@,
                pos.piece_bitboards@,
                midgame,
                piece as int,
            ),
        decreases 6 - piece,
    {
        let board = BitBoard(pos.piece_bitboards[piece].0 & pos.color_bitboards[0].0);
        let count = board.count_ones();
        proof {
            lemma_popcnt_from_bound(board.0, 0);
        }
        let value = if midgame {
            value_mid(piece)
        } else {
            value_end(piece)
        };
        proof {
            assert(count * value <= 64 * 2682) by (nonlinear_arith)
                requires
                    count <= 64,
                    value <= 2682,
            ;
        }
        total_piece_value = total_piece_value + count * value;
        piece = piece + 1;
    }
    total_piece_value
}

fn value_mid(piece: usize) -> (r: u32)
    requires
        piece < 6,
    ensures
        r == spec_value_mid(piece as int),
        r <= 2682,
{
    if piece == 0 {
        1276
    } else if piece == 1 {
        781
    } else if piece == 2 {
        825
    } else if piece == 3 {
        2538
    } else if piece == 4 {
        0
    } else {
        124
    }
}

fn value_end(piece: usize) -> (r: u32)
    requires
        piece < 6,
    ensures
        r == spec_value_end(piece as int),
        r <= 2682,
{
    if piece == 0 {
        1380
    } else if piece == 1 {
        854
    } else if piece == 2 {
        915
    } else if piece == 3 {
        2682
    } else if piece == 4 {
        0
    } else {
        206
    }
}

pub fn get_piece_value_midgame(pos: &Position) -> (r: u32)
    requires
        pos.well_sized(),
    ensures
        r == spec_material_of(pos.color_bitboards@, pos.piece_bitboards@, true),
        r <= 64 * 6 * 2682,
{
    get_material_value(pos, true)
}

pub fn get_piece_value_endgame(pos: &Position) -> (r: u32)
    requires
        pos.well_sized(),
    ensures
        r == spec_material_of(pos.color_bitboards@, pos.piece_bitboards@, false),
        r <= 64 * 6 * 2682,
{
    get_material_value(pos, false)
}

// Gets value of non-pawn material
#[verifier::loop_isolation(false)]
pub fn get_npm(pos: &Position) -> (r: u32)
    requires
        pos.well_sized(),
    ensures
        r == spec_npm_of(pos.color_bitboards@, pos.piece_bitboards@),
        r <= 64 * 6 * 2682,
{
    let mut npm: u32 = 0;
    let mut piece: usize = 0;
    while piece < 6
        invariant
            piece <= 6,
            npm <= piece * 64 * 2682,
            npm == spec_npm_upto(pos.color_bitboards@, pos.piece_bitboards@, piece as int),
        decreases 6 - piece,
    {
        if piece != 5 {
            let board = BitBoard(pos.piece_bitboards[piece].0 & pos.color_bitboards[0].0);
            let count = board.count_ones();
            proof {
                lemma_popcnt_from_bound(board.0, 0);
            }
            let value = value_mid(piece);
            proof {
                assert(count * value <= 64 * 2682) by (nonlinear_arith)
                    requires
                        count <= 64,
                        value <= 2682,
                ;
            }
            npm = npm + count * value;
        }
        piece = piece + 1;
    }
    npm
}

// The phase value indicates how much the game is still in midgame vs endgame
pub fn get_phase_value(pos: &mut Position) -> (r: u32)
    requires
        old(pos).well_sized(),
    ensures
        *final(pos) == *old(pos),
        r == spec_phase(old(pos).color_bitboards@, old(pos).piece_bitboards@),
        r <= 128,
{
    let midgame_limit: u32 = 15258;
    let endgame_limit: u32 = 3915;
    let pos_flipped = pos.colorflip();
    proof {
        assert(pos_flipped.color_bitboards@ =~= flip_cb(pos.color_bitboards@));
        assert forall|j: int| 0 <= j < 6 implies pos_flipped.piece_bitboards@[j] == flip_pb(
            pos.piece_bitboards@,
        )[j] by {
            assert(pos_flipped.piece_bitboards@[j].0 == spec_swap_bytes(
                pos.piece_bitboards@[j].0,
            ));
        }
        assert(pos_flipped.piece_bitboards@ =~= flip_pb(pos.piece_bitboards@));
    }
    let mut non_pawn_material = get_npm(pos) + get_npm(&pos_flipped);
    if non_pawn_material < endgame_limit {
        non_pawn_material = endgame_limit;
    }
    if non_pawn_material > midgame_limit {
        non_pawn_material = midgame_limit;
    }
    ((non_pawn_material - endgame_limit) * 128) / (midgame_limit - endgame_limit)
}

pub fn piece_count(pos: &Position) -> (r: u32)
    requires
        pos.well_sized(),
    ensures
        r == popcnt(pos.color_bitboards@[0].0),
{
    pos.color_bitboards[0].count_ones()
}

// Returns true if the two sides' bishops walk on opposite square colors
pub fn opposite_bishops(pos: &Position) -> (r: bool)
    requires
        pos.well_sized(),
{
    if !(pos.piece_bitboards[2].count_ones() == 2) {
        return false;
    }
    let white_bishops = BitBoard(pos.piece_bitboards[2].0 & pos.color_bitboards[0].0);
    let black_bishops = BitBoard(pos.piece_bitboards[2].0 & pos.color_bitboards[1].0);
    let white_bishop_square = white_bishops.trailing_zeros() % 8;
    let black_bishop_square = black_bishops.trailing_zeros() % 8;
    white_bishop_square % 2 != black_bishop_square % 2
}

// Being the side whose turn it is confers a small bonus
pub fn tempo(pos: &Position) -> (r: i32)
    ensures
        r == (if pos.state.active_player == Color::White {
            28int
        } else {
            -28int
        }),
{
    match pos.state.active_player {
        Color::White => 28,
        Color::Black => -28,
    }
}

/// White's material advantage under the midgame values.
pub open spec fn spec_mid_eval(cb: Seq<BitBoard>, pb: Seq<BitBoard>) -> int {
    spec_material_of(cb, pb, true) - spec_material_of(flip_cb(cb), flip_pb(pb), true)
}

/// White's material advantage under the endgame values.
pub open spec fn spec_end_eval(cb: Seq<BitBoard>, pb: Seq<BitBoard>) -> int {
    spec_material_of(cb, pb, false) - spec_material_of(flip_cb(cb), flip_pb(pb), false)
}

pub fn get_midgame_evaluation(pos: &mut Position) -> (r: i32)
    requires
        old(pos).well_sized(),
    ensures
        *final(pos) == *old(pos),
        r == spec_mid_eval(old(pos).color_bitboards@, old(pos).piece_bitboards@),
        -64 * 6 * 2682 <= r <= 64 * 6 * 2682,
{
    let pos_flipped = pos.colorflip();
    proof {
        assert(pos_flipped.color_bitboards@ =~= flip_cb(pos.color_bitboards@));
        assert forall|j: int| 0 <= j < 6 implies pos_flipped.piece_bitboards@[j] == flip_pb(
            pos.piece_bitboards@,
        )[j] by {
            assert(pos_flipped.piece_bitboards@[j].0 == spec_swap_bytes(
                pos.piece_bitboards@[j].0,
            ));
        }
        assert(pos_flipped.piece_bitboards@ =~= flip_pb(pos.piece_bitboards@));
    }
    get_piece_value_midgame(pos) as i32 - get_piece_value_midgame(&pos_flipped) as i32
}

pub fn get_endgame_evaluation(pos: &mut Position) -> (r: i32)
    requires
        old(pos).well_sized(),
    ensures
        *final(pos) == *old(pos),
        r == spec_end_eval(old(pos).color_bitboards@, old(pos).piece_bitboards@),
        -64 * 6 * 2682 <= r <= 64 * 6 * 2682,
{
    let pos_flipped = pos.colorflip();
    proof {
        assert(pos_flipped.color_bitboards@ =~= flip_cb(pos.color_bitboards@));
        assert forall|j: int| 0 <= j < 6 implies pos_flipped.piece_bitboards@[j] == flip_pb(
            pos.piece_bitboards@,
        )[j] by {
            assert(pos_flipped.piece_bitboards@[j].0 == spec_swap_bytes(
                pos.piece_bitboards@[j].0,
            ));
        }
        assert(pos_flipped.piece_bitboards@ =~= flip_pb(pos.piece_bitboards@));
    }
    get_piece_value_endgame(pos) as i32 - get_piece_value_endgame(&pos_flipped) as i32
}

/// What the static scoring answers: the worst value for a checkmated side to
/// move; otherwise the phase-tapered blend of the midgame and endgame
/// material balances plus the tempo bonus, signed for the side to move. The
/// blend divides toward zero, as the machine does.
pub open spec fn spec_eval(t: AttackTables, pos: Position) -> int {
    if crate::game::spec_checkmated(t, pos@, pos.state.active_player) {
        i32::MIN + 1
    } else {
        let cb = pos.color_bitboards@;
        let pb = pos.piece_bitboards@;
        let phase = spec_phase(cb, pb);
        let num = spec_mid_eval(cb, pb) * phase + spec_end_eval(cb, pb) * (128 - phase);
        let blend = if num >= 0 {
            num / 128
        } else {
            -((-num) / 128)
        };
        let e = blend + (if pos.state.active_player == Color::White {
            28int
        } else {
            -28int
        });
        if pos.state.active_player == Color::White {
            e
        } else {
            -e
        }
    }
}

/* The main evaluation: a checkmated side scores the worst possible value;
/ otherwise the midgame and endgame material balances are blended by the
/ phase and a tempo bonus is added, all from the side to move's point of
/ view. */
pub fn main_evaluation(pos: &mut Position, tables: &AttackTables) -> (r: i32)
    requires
        old(pos).wf(),
        tables.wf(),
        crate::game::no_pawns_rank0(old(pos).piece_bitboards@),
        old(pos).state.half_move_counter < 255,
        crate::game::has_king(old(pos)@, old(pos).state.active_player),
        crate::game::has_king(old(pos)@, old(pos).state.active_player.spec_not()),
    ensures
        *final(pos) == *old(pos),
        r == spec_eval(*tables, *old(pos)),
        i32::MIN + 1 <= r <= i32::MAX - 1,
{
    // If you are to move and checkmated, the evaluation is the worst value.
    if crate::game::is_in_checkmate(pos, tables) {
        return i32::MIN + 1;
    }
    let player_to_move: i32 = match pos.state.active_player {
        Color::White => 1,
        Color::Black => -1,
    };
    let midgame_evaluation = get_midgame_evaluation(pos);
    let endgame_evaluation = get_endgame_evaluation(pos);
    let phase = get_phase_value(pos) as i32;
    proof {
        assert(-64 * 6 * 2682 * 128 <= midgame_evaluation * phase <= 64 * 6 * 2682 * 128)
            by (nonlinear_arith)
            requires
                -64 * 6 * 2682 <= midgame_evaluation <= 64 * 6 * 2682,
                0 <= phase <= 128,
        ;
        assert(-64 * 6 * 2682 * 128 <= endgame_evaluation * (128 - phase) <= 64 * 6 * 2682 * 128)
            by (nonlinear_arith)
            requires
                -64 * 6 * 2682 <= endgame_evaluation <= 64 * 6 * 2682,
                0 <= phase <= 128,
        ;
    }
    let num = midgame_evaluation * phase + endgame_evaluation * (128 - phase);
    // The blend divides toward zero either way round; splitting on the sign
    // keeps the dividend where division is the same in both worlds.
    let mut evaluation = if num >= 0 {
        num / 128
    } else {
        -((-num) / 128)
    };
    evaluation = evaluation + tempo(pos);
    proof {
        assert(-300000000 <= evaluation * player_to_move <= 300000000) by (nonlinear_arith)
            requires
                -300000000 <= evaluation <= 300000000,
                -1 <= player_to_move <= 1,
        ;
        assert(evaluation * 1 == evaluation && evaluation * -1 == -evaluation) by (nonlinear_arith);
    }
    evaluation * player_to_move
}

} // verus!
