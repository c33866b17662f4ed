use vstd::prelude::*;
use crate::bitboard::BitBoard;
use crate::bits::bit64;
use crate::position::{Position, col_at, fpi, occ_s};
use crate::state::{Color, Castling, Piece};
use crate::magics::AttackTables;
use crate::precompute::{MagicTableEntry, magic_index, spec_magic_index, entry_ok, spec_moves_upto, rook_dirs, bishop_dirs, table_slot_ok};
use crate::util::{spec_try_offset, try_square_offset};

verus! {

/// The attack pattern of a pawn on each file, before the shift to its rank:
/// the base row holds white's patterns, read at rank two, and black's, read
/// at rank seven.
pub open spec fn spec_pawn_attack_base(color: int, file: int) -> u64 {
    if color == 0 {
        if file == 0 { 131072 } else if file == 1 { 327680 } else if file == 2 { 655360 }
        else if file == 3 { 1310720 } else if file == 4 { 2621440 } else if file == 5 { 5242880 }
        else if file == 6 { 10485760 } else { 4194304 }
    } else {
        if file == 0 { 2 } else if file == 1 { 5 } else if file == 2 { 10 }
        else if file == 3 { 20 } else if file == 4 { 40 } else if file == 5 { 80 }
        else if file == 6 { 160 } else { 64 }
    }
}

/// The squares a knight reaches from each square.
pub open spec fn spec_knight_table() -> Seq<u64> {
    seq![
        132096u64,
        329728u64,
        659712u64,
        1319424u64,
        2638848u64,
        5277696u64,
        10489856u64,
        4202496u64,
        33816580u64,
        84410376u64,
        168886289u64,
        337772578u64,
        675545156u64,
        1351090312u64,
        2685403152u64,
        1075839008u64,
        8657044482u64,
        21609056261u64,
        43234889994u64,
        86469779988u64,
        172939559976u64,
        345879119952u64,
        687463207072u64,
        275414786112u64,
        2216203387392u64,
        5531918402816u64,
        11068131838464u64,
        22136263676928u64,
        44272527353856u64,
        88545054707712u64,
        175990581010432u64,
        70506185244672u64,
        567348067172352u64,
        1416171111120896u64,
        2833441750646784u64,
        5666883501293568u64,
        11333767002587136u64,
        22667534005174272u64,
        45053588738670592u64,
        18049583422636032u64,
        145241105196122112u64,
        362539804446949376u64,
        725361088165576704u64,
        1450722176331153408u64,
        2901444352662306816u64,
        5802888705324613632u64,
        11533718717099671552u64,
        4620693356194824192u64,
        288234782788157440u64,
        576469569871282176u64,
        1224997833292120064u64,
        2449995666584240128u64,
        4899991333168480256u64,
        9799982666336960512u64,
        1152939783987658752u64,
        2305878468463689728u64,
        1128098930098176u64,
        2257297371824128u64,
        4796069720358912u64,
        9592139440717824u64,
        19184278881435648u64,
        38368557762871296u64,
        4679521487814656u64,
        9077567998918656u64,
    ]
}

#[inline]
pub fn get_pseudolegal_knight_moves(square: u8) -> (r: BitBoard)
    requires
        square < 64,
    ensures
        r.0 == spec_knight_table()[square as int],
{
    let table: [u64; 64] = [
        132096,
        329728,
        659712,
        1319424,
        2638848,
        5277696,
        10489856,
        4202496,
        33816580,
        84410376,
        168886289,
        337772578,
        675545156,
        1351090312,
        2685403152,
        1075839008,
        8657044482,
        21609056261,
        43234889994,
        86469779988,
        172939559976,
        345879119952,
        687463207072,
        275414786112,
        2216203387392,
        5531918402816,
        11068131838464,
        22136263676928,
        44272527353856,
        88545054707712,
        175990581010432,
        70506185244672,
        567348067172352,
        1416171111120896,
        2833441750646784,
        5666883501293568,
        11333767002587136,
        22667534005174272,
        45053588738670592,
        18049583422636032,
        145241105196122112,
        362539804446949376,
        725361088165576704,
        1450722176331153408,
        2901444352662306816,
        5802888705324613632,
        11533718717099671552,
        4620693356194824192,
        288234782788157440,
        576469569871282176,
        1224997833292120064,
        2449995666584240128,
        4899991333168480256,
        9799982666336960512,
        1152939783987658752,
        2305878468463689728,
        1128098930098176,
        2257297371824128,
        4796069720358912,
        9592139440717824,
        19184278881435648,
        38368557762871296,
        4679521487814656,
        9077567998918656,
    ];
    proof {
        assert(table@ =~= spec_knight_table());
    }
    BitBoard(table[square as usize])
}

/// The squares a pawn on `square` attacks: the base pattern of its file,
/// shifted to its rank.
pub open spec fn spec_pawn_attacks(square: u8, color: int) -> u64 {
    spec_pawn_attack_base(color, (square as int) % 8) << ((8 * (square / 8 - 1)) as u64)
}

pub fn pawn_attacks(square: u8, color: usize) -> (r: BitBoard)
    requires
        8 <= square < 64,
        color < 2,
    ensures
        r.0 == spec_pawn_attacks(square, color as int),
{
    let white_base: [u64; 8] = [131072, 327680, 655360, 1310720, 2621440, 5242880, 10485760, 4194304];
    let black_base: [u64; 8] = [2, 5, 10, 20, 40, 80, 160, 64];
    let file_index = square as usize % 8;
    let rank_index = (square as usize / 8) - 1;
    let base = if color == 0 {
        white_base[file_index]
    } else {
        black_base[file_index]
    };
    let attacks = base << ((8 * rank_index) as u64);
    BitBoard(attacks)
}

/* Use the ray-scanning masks from the precompute module to get potential
/ blockers for a piece, then AND the result with the occupancy to get the
/ actual blockers. */
pub open spec fn spec_actual_blockers(t: AttackTables, piece: u8, square: u8, occ: u64) -> u64 {
    (if piece == 0 {
        t.rook_magics@[square as int].mask
    } else if piece == 2 {
        t.bishop_magics@[square as int].mask
    } else {
        t.rook_magics@[square as int].mask | t.bishop_magics@[square as int].mask
    }) & occ
}

#[inline]
fn get_all_actual_blockers(piece: u8, square: u8, position: &Position, tables: &AttackTables) -> (r:
    BitBoard)
    requires
        piece == 0 || piece == 2 || piece == 3,
        square < 64,
        position.well_sized(),
        tables.wf(),
    ensures
        r.0 == spec_actual_blockers(*tables, piece, square, position.color_bitboards@[0].0
            | position.color_bitboards@[1].0),
{
    let mut blockers = if piece == 0 {
        BitBoard::from_u64(tables.rook_magics[square as usize].mask)
    } else if piece == 2 {
        BitBoard::from_u64(tables.bishop_magics[square as usize].mask)
    } else {
        BitBoard::from_u64(
            tables.rook_magics[square as usize].mask | tables.bishop_magics[square as usize].mask,
        )
    };
    blockers = BitBoard(blockers.0 & position.all_pieces().0);
    blockers
}

/// What a slider's moves are by the rays themselves: the walks from the
/// square along the piece's directions, stopped by the relevant blockers.
/// Correctly filled tables answer exactly this.
pub open spec fn spec_slider_rays(t: AttackTables, piece: u8, square: u8, occ: u64) -> u64 {
    let b = spec_actual_blockers(t, piece, square, occ);
    if piece == 0 {
        spec_moves_upto(rook_dirs(), 4, square, b & t.rook_magics@[square as int].mask)
    } else if piece == 2 {
        spec_moves_upto(bishop_dirs(), 4, square, b & t.bishop_magics@[square as int].mask)
    } else {
        spec_moves_upto(rook_dirs(), 4, square, b & t.rook_magics@[square as int].mask)
            | spec_moves_upto(bishop_dirs(), 4, square, b & t.bishop_magics@[square as int].mask)
    }
}

/// What the magic tables answer for a slider on `square` with the given
/// occupancy: the rook table's row, the bishop table's row, or their union
/// for the queen.
pub open spec fn spec_pseudo_slider(t: AttackTables, piece: u8, square: u8, occ: u64) -> u64 {
    let b = spec_actual_blockers(t, piece, square, occ);
    if piece == 0 {
        t.rook_moves@[spec_magic_index(t.rook_magics@[square as int], b)].0
    } else if piece == 2 {
        t.bishop_moves@[spec_magic_index(t.bishop_magics@[square as int], b)].0
    } else {
        t.rook_moves@[spec_magic_index(t.rook_magics@[square as int], b)].0
            | t.bishop_moves@[spec_magic_index(t.bishop_magics@[square as int], b)].0
    }
}

#[inline]
pub fn pseudolegal_slider_moves(piece: u8, square: u8, pos: &Position, tables: &AttackTables) -> (r:
    BitBoard)
    requires
        piece == 0 || piece == 2 || piece == 3,
        square < 64,
        pos.well_sized(),
        tables.wf(),
    ensures
        r.0 == spec_pseudo_slider(*tables, piece, square, pos.color_bitboards@[0].0
            | pos.color_bitboards@[1].0),
        tables.good() ==> r.0 == spec_slider_rays(*tables, piece, square, pos.color_bitboards@[0].0
            | pos.color_bitboards@[1].0),
{
    let blockers = get_all_actual_blockers(piece, square, pos, tables);
    proof {
        if tables.good() {
            lemma_lookup_is_rays(*tables, piece, square, blockers.0);
        }
    }
    proof {
        assert(entry_ok(tables.rook_magics@[square as int], tables.rook_moves@.len() as int));
        assert(entry_ok(tables.bishop_magics@[square as int], tables.bishop_moves@.len() as int));
    }
    if piece == 0 {
        BitBoard::from_u64(tables.rook_moves[magic_index(&tables.rook_magics[square as usize], blockers)].0)
    } else if piece == 2 {
        BitBoard::from_u64(
            tables.bishop_moves[magic_index(&tables.bishop_magics[square as usize], blockers)].0,
        )
    } else {
        BitBoard::from_u64(
            tables.rook_moves[magic_index(&tables.rook_magics[square as usize], blockers)].0
                | tables.bishop_moves[magic_index(&tables.bishop_magics[square as usize], blockers)].0,
        )
    }
}

/// On correctly filled tables, the magic lookup answers the ray walks.
proof fn lemma_lookup_is_rays(t: AttackTables, piece: u8, square: u8, blockers: u64)
    requires
        t.wf(),
        t.good(),
        piece == 0 || piece == 2 || piece == 3,
        square < 64,
    ensures
        ({
            let rm = t.rook_magics@[square as int].mask;
            let bm = t.bishop_magics@[square as int].mask;
            &&& (piece != 2 ==> t.rook_moves@[spec_magic_index(
                t.rook_magics@[square as int],
                blockers,
            )].0 == spec_moves_upto(rook_dirs(), 4, square, blockers & rm))
            &&& (piece != 0 ==> t.bishop_moves@[spec_magic_index(
                t.bishop_magics@[square as int],
                blockers,
            )].0 == spec_moves_upto(bishop_dirs(), 4, square, blockers & bm))
        }),
{
    crate::bits::lemma_subset_bits();
    let re = t.rook_magics@[square as int];
    let be = t.bishop_magics@[square as int];
    assert((blockers & re.mask) & re.mask == blockers & re.mask);
    assert((blockers & be.mask) & be.mask == blockers & be.mask);
    let ghost sq_int = square as int;
    assert(table_slot_ok(rook_dirs(), re, t.rook_moves@, sq_int as u8, blockers & re.mask));
    assert(table_slot_ok(bishop_dirs(), be, t.bishop_moves@, sq_int as u8, blockers & be.mask));
    assert(spec_magic_index(re, blockers & re.mask) == spec_magic_index(re, blockers));
    assert(spec_magic_index(be, blockers & be.mask) == spec_magic_index(be, blockers));
}

/// A slider's moves: the magic lookup, less the mover's own pieces.
pub open spec fn spec_slider_moves(t: AttackTables, piece: u8, square: u8, cb: Seq<BitBoard>) -> u64 {
    spec_pseudo_slider(t, piece, square, cb[0].0 | cb[1].0) & !cb[col_at(cb, square).spec_index()].0
}

pub fn slider_moves(piece: u8, square: u8, pos: &Position, tables: &AttackTables) -> (r: BitBoard)
    requires
        piece == 0 || piece == 2 || piece == 3,
        square < 64,
        pos.well_sized(),
        pos.occ_bit(square as u64),
        tables.wf(),
    ensures
        r.0 == spec_slider_moves(*tables, piece, square, pos.color_bitboards@),
        tables.good() ==> r.0 == spec_slider_rays(*tables, piece, square, pos.color_bitboards@[0].0
            | pos.color_bitboards@[1].0) & !pos.color_bitboards@[col_at(
            pos.color_bitboards@,
            square,
        ).spec_index()].0,
{
    let blockers = get_all_actual_blockers(piece, square, pos, tables);
    proof {
        if tables.good() {
            lemma_lookup_is_rays(*tables, piece, square, blockers.0);
        }
    }
    proof {
        assert(entry_ok(tables.rook_magics@[square as int], tables.rook_moves@.len() as int));
        assert(entry_ok(tables.bishop_magics@[square as int], tables.bishop_moves@.len() as int));
    }
    let color = pos.piece_color(square);
    if piece == 0 {
        BitBoard::from_u64(
            tables.rook_moves[magic_index(&tables.rook_magics[square as usize], blockers)].0 & !pos.color_bitboards[color.index()].0,
        )
    } else if piece == 2 {
        BitBoard::from_u64(
            tables.bishop_moves[magic_index(&tables.bishop_magics[square as usize], blockers)].0 & !pos.color_bitboards[color.index()].0,
        )
    } else {
        BitBoard::from_u64(
            (tables.rook_moves[magic_index(&tables.rook_magics[square as usize], blockers)].0
                | tables.bishop_moves[magic_index(&tables.bishop_magics[square as usize], blockers)].0) & !pos.color_bitboards[color.index()].0,
        )
    }
}

/// The knight's moves: the table row, less the mover's own pieces.
pub open spec fn spec_knight_moves(square: u8, cb: Seq<BitBoard>) -> u64 {
    spec_knight_table()[square as int] & !cb[col_at(cb, square).spec_index()].0
}

pub fn get_knight_moves(square: u8, position: &Position) -> (r: BitBoard)
    requires
        square < 64,
        position.well_sized(),
        (position.spec_piece_at(square) is Some),
    ensures
        r.0 == spec_knight_moves(square, position.color_bitboards@),
{
    let moves = get_pseudolegal_knight_moves(square);
    let color = position.piece_at(square).unwrap().1;
    BitBoard(moves.0 & !position.color_bitboards[color.index()].0)
}


/// One king step: the reached square joins the set, edges are discarded.
pub open spec fn spec_king_delta(m: u64, square: u8, dx: i8, dy: i8) -> u64 {
    match spec_try_offset(square, dx, dy) {
        Some(n) => m | (1u64 << (n as u64)),
        None => m,
    }
}

/// The eight king steps from a square.
pub open spec fn spec_king_base(square: u8) -> u64 {
    let m0 = spec_king_delta(0u64, square, 1i8, 1i8);
    let m1 = spec_king_delta(m0, square, 1i8, 0i8);
    let m2 = spec_king_delta(m1, square, 1i8, -1i8);
    let m3 = spec_king_delta(m2, square, 0i8, 1i8);
    let m4 = spec_king_delta(m3, square, 0i8, -1i8);
    let m5 = spec_king_delta(m4, square, -1i8, 1i8);
    let m6 = spec_king_delta(m5, square, -1i8, 0i8);
    spec_king_delta(m6, square, -1i8, -1i8)
}

/// The king's moves: the eight steps, the castling destinations that the
/// rights and the empty squares between allow, less the mover's own pieces.
/// Whether the castling passes through attacked squares is the legality
/// filter's business, not this function's.
pub open spec fn spec_king_moves(v: crate::position::BoardView, square: u8) -> u64 {
    let base = spec_king_base(square);
    let color = col_at(v.cb, square);
    let rights = v.state.castling_rights.0;
    let m = if rights != Castling::NO_CASTLING && !v.check {
        if color == Color::White {
            let k = if rights & Castling::WHITE_KING_SIDE != Castling::NO_CASTLING && fpi(v.pb, 5)
                == 6 && fpi(v.pb, 6) == 6 {
                base | (1u64 << 6)
            } else {
                base
            };
            if rights & Castling::WHITE_QUEEN_SIDE != Castling::NO_CASTLING && fpi(v.pb, 3) == 6
                && fpi(v.pb, 2) == 6 && fpi(v.pb, 1) == 6 {
                k | (1u64 << 2)
            } else {
                k
            }
        } else {
            let k = if rights & Castling::BLACK_KING_SIDE != Castling::NO_CASTLING && fpi(v.pb, 61)
                == 6 && fpi(v.pb, 62) == 6 {
                base | (1u64 << 62)
            } else {
                base
            };
            if rights & Castling::BLACK_QUEEN_SIDE != Castling::NO_CASTLING && fpi(v.pb, 59) == 6
                && fpi(v.pb, 58) == 6 && fpi(v.pb, 57) == 6 {
                k | (1u64 << 58)
            } else {
                k
            }
        }
    } else {
        base
    };
    m & !v.cb[color.spec_index()].0
}

fn king_delta(m: u64, square: u8, dx: i8, dy: i8) -> (r: u64)
    requires
        square < 64,
        -1 <= dx <= 1,
        -1 <= dy <= 1,
    ensures
        r == spec_king_delta(m, square, dx, dy),
{
    match try_square_offset(square, dx, dy) {
        Some(n) => m | (1u64 << n),
        None => m,
    }
}

pub fn get_king_moves(square: u8, position: &Position) -> (r: BitBoard)
    requires
        square < 64,
        position.well_sized(),
        (position.spec_piece_at(square) is Some),
    ensures
        r.0 == spec_king_moves(position@, square),
{
    let mut moves: u64 = 0;
    moves = king_delta(moves, square, 1, 1);
    moves = king_delta(moves, square, 1, 0);
    moves = king_delta(moves, square, 1, -1);
    moves = king_delta(moves, square, 0, 1);
    moves = king_delta(moves, square, 0, -1);
    moves = king_delta(moves, square, -1, 1);
    moves = king_delta(moves, square, -1, 0);
    moves = king_delta(moves, square, -1, -1);

    let color = position.piece_at(square).unwrap().1;

    if position.state.castling_rights.0 != Castling::NO_CASTLING && !position.check {
        match color {
            Color::White => {
                if position.state.castling_rights.0 & Castling::WHITE_KING_SIDE
                    != Castling::NO_CASTLING {
                    if position.piece_at(5).is_none() && position.piece_at(6).is_none() {
                        moves = moves | (1u64 << 6u64);
                    }
                }
                if position.state.castling_rights.0 & Castling::WHITE_QUEEN_SIDE
                    != Castling::NO_CASTLING {
                    if position.piece_at(3).is_none() && position.piece_at(2).is_none()
                        && position.piece_at(1).is_none() {
                        moves = moves | (1u64 << 2u64);
                    }
                }
            },
            Color::Black => {
                if position.state.castling_rights.0 & Castling::BLACK_KING_SIDE
                    != Castling::NO_CASTLING {
                    if position.piece_at(61).is_none() && position.piece_at(62).is_none() {
                        moves = moves | (1u64 << 62u64);
                    }
                }
                if position.state.castling_rights.0 & Castling::BLACK_QUEEN_SIDE
                    != Castling::NO_CASTLING {
                    if position.piece_at(59).is_none() && position.piece_at(58).is_none()
                        && position.piece_at(57).is_none() {
                        moves = moves | (1u64 << 58u64);
                    }
                }
            },
        }
    }
    BitBoard(moves & !position.color_bitboards[color.index()].0)
}

/// The pawn's moves: the single push onto an empty square, the double push
/// from the starting rank, and the two diagonal captures, which an enemy
/// piece or the en-passant square allows.
pub open spec fn spec_pawn_moves(v: crate::position::BoardView, square: u8) -> u64 {
    let color = col_at(v.cb, square);
    let dir: i8 = if color == Color::White {
        1i8
    } else {
        -1i8
    };
    let m0 = match spec_try_offset(square, 0i8, dir) {
        Some(f1) => if fpi(v.pb, f1) == 6 {
            let p1 = 0u64 | (1u64 << (f1 as u64));
            if (color == Color::White && square / 8 == 1) || (color == Color::Black && square / 8
                == 6) {
                match spec_try_offset(f1, 0i8, dir) {
                    Some(f2) => if fpi(v.pb, f2) == 6 {
                        p1 | (1u64 << (f2 as u64))
                    } else {
                        p1
                    },
                    None => p1,
                }
            } else {
                p1
            }
        } else {
            0u64
        },
        None => 0u64,
    };
    let m1 = spec_pawn_capture(v, m0, square, -1i8, dir, color);
    spec_pawn_capture(v, m1, square, 1i8, dir, color)
}

/// One pawn capture direction: an enemy piece, or the en-passant square,
/// lets the pawn take diagonally.
pub open spec fn spec_pawn_capture(
    v: crate::position::BoardView,
    m: u64,
    square: u8,
    dx: i8,
    dir: i8,
    color: Color,
) -> u64 {
    match spec_try_offset(square, dx, dir) {
        Some(d) => if fpi(v.pb, d) != 6 {
            if col_at(v.cb, d) != color {
                m | (1u64 << (d as u64))
            } else {
                m
            }
        } else {
            match v.ep {
                Some(e) => if e == d {
                    m | (1u64 << (d as u64))
                } else {
                    m
                },
                None => m,
            }
        },
        None => m,
    }
}

fn pawn_capture(position: &Position, m: u64, square: u8, dx: i8, dir: i8, color: Color) -> (r: u64)
    requires
        square < 64,
        -1 <= dx <= 1,
        -1 <= dir <= 1,
        position.well_sized(),
    ensures
        r == spec_pawn_capture(position@, m, square, dx, dir, color),
{
    match try_square_offset(square, dx, dir) {
        Some(d) => {
            match position.piece_at(d) {
                Some((_piece, x_color)) => {
                    if color != x_color {
                        m | (1u64 << d)
                    } else {
                        m
                    }
                },
                None => {
                    match position.en_passant_square {
                        Some(e) => {
                            if e == d {
                                m | (1u64 << d)
                            } else {
                                m
                            }
                        },
                        None => m,
                    }
                },
            }
        },
        None => m,
    }
}

pub fn get_pawn_moves(square: u8, position: &Position) -> (r: BitBoard)
    requires
        square < 64,
        position.well_sized(),
        (position.spec_piece_at(square) is Some),
    ensures
        r.0 == spec_pawn_moves(position@, square),
{
    let color = position.piece_at(square).unwrap().1;
    let direction: i8 = match color {
        Color::White => 1,
        Color::Black => -1,
    };
    let mut moves: u64 = 0;
    match try_square_offset(square, 0, direction) {
        Some(offset_by_delta) => {
            if position.piece_at(offset_by_delta).is_none() {
                moves = moves | (1u64 << offset_by_delta);
                if (color == Color::White && square / 8 == 1) || (color == Color::Black && square
                    / 8 == 6) {
                    match try_square_offset(offset_by_delta, 0, direction) {
                        Some(f2) => {
                            if position.piece_at(f2).is_none() {
                                moves = moves | (1u64 << f2);
                            }
                        },
                        None => {},
                    }
                }
            }
        },
        None => {},
    }
    moves = pawn_capture(position, moves, square, -1, direction, color);
    moves = pawn_capture(position, moves, square, 1, direction, color);
    BitBoard(moves)
}

/// The pseudo-legal move mask of the piece on `square`: its piece-specific
/// attacks, masked to exclude its own side's pieces.
pub open spec fn spec_moves_mask(t: AttackTables, v: crate::position::BoardView, square: u8) -> u64 {
    let piece = fpi(v.pb, square);
    if piece == 0 || piece == 2 || piece == 3 {
        spec_slider_moves(t, piece, square, v.cb)
    } else if piece == 1 {
        spec_knight_moves(square, v.cb)
    } else if piece == 4 {
        spec_king_moves(v, square)
    } else if piece == 5 {
        spec_pawn_moves(v, square)
    } else {
        0
    }
}

/// A pseudo-legal move for `color`: its own piece stands on `from`, and
/// `to` is in that piece's move mask.
pub open spec fn is_candidate(
    t: AttackTables,
    v: crate::position::BoardView,
    color: Color,
    from: u8,
    to: u8,
) -> bool {
    &&& from < 64
    &&& to < 64
    &&& bit64(v.cb[color.spec_index()].0, from as u64)
    &&& bit64(spec_moves_mask(t, v, from), to as u64)
}



/// Whether a castling king would pass through or land on an attacked square,
/// judged on the attack boards before the move.
pub open spec fn castle_path_attacked(v: crate::position::BoardView, color: Color, to: u8) -> bool {
    if to == 2 || to == 58 {
        ||| crate::position::attacked_by(v, to, color.spec_not())
        ||| crate::position::attacked_by(v, (to - 1) as u8, color.spec_not())
        ||| crate::position::attacked_by(v, (to - 2) as u8, color.spec_not())
    } else if to == 6 || to == 62 {
        ||| crate::position::attacked_by(v, to, color.spec_not())
        ||| crate::position::attacked_by(v, (to + 1) as u8, color.spec_not())
    } else {
        false
    }
}

/// Whether a pseudo-legal move survives the legality filter: it must not park
/// the king beside the enemy king, not castle out of or through an attacked
/// square, not take a king, and, once played out on a copy of the board with
/// the attack boards brought up to date, it must not leave the mover's own
/// king attacked by the opponent.
/// The adjacency arm measures index distance, the conservative filter the
/// move generator applies before the simulation.
pub open spec fn spec_move_safe(
    t: AttackTables,
    v: crate::position::BoardView,
    color: Color,
    from: u8,
    to: u8,
) -> bool {
    let okb = v.pb[4].0 & v.cb[color.spec_not().spec_index()].0;
    let ok = vstd::std_specs::bits::u64_trailing_zeros(okb) as int;
    let is_king = bit64(v.pb[4].0, from as u64);
    let d = ok - to as int;
    if from == to {
        false
    } else if is_king && ((-2 < d && d < 2) || (6 < d && d < 10) || (-10 < d && d < -6)) {
        false
    } else if is_king && (to == from + 2 || from == to + 2) && castle_path_attacked(v, color, to) {
        false
    } else if fpi(v.pb, to) == 4 {
        false
    } else {
        let v2 = crate::game::bv_apply_move(t, v, from, to);
        let ksm = vstd::std_specs::bits::u64_trailing_zeros(v2.pb[4].0
            & v2.cb[color.spec_index()].0) as u8;
        !crate::position::attacked_by(v2, ksm, color.spec_not())
    }
}

/// Plays the move out on a copy of the board and reports whether the
/// legality filter lets it through.
#[verifier::loop_isolation(false)]
#[verifier::rlimit(100)]
#[verifier::spinoff_prover]
fn move_is_safe(pos: &Position, tables: &AttackTables, color: Color, from: u8, to: u8) -> (r: bool)
    requires
        pos.wf(),
        tables.wf(),
        crate::game::no_pawns_rank0(pos.piece_bitboards@),
        color == pos.state.active_player,
        pos.state.half_move_counter < 255,
        from < 64,
        to < 64,
        bit64(pos.color_bitboards@[color.spec_index()].0, from as u64),
        bit64(spec_moves_mask(*tables, pos@, from), to as u64),
        crate::game::has_king(pos@, color),
        crate::game::has_king(pos@, color.spec_not()),
    ensures
        r == spec_move_safe(*tables, pos@, color, from, to),
{
    proof {
        crate::bits::lemma_and_bit();
        crate::bits::lemma_subset_bits();
    }
    if from == to {
        return false;
    }
    let opposite_king_board = BitBoard(
        pos.piece_bitboards[4].0 & pos.color_bitboards[color.not().index()].0,
    );
    let is_king = pos.piece_bitboards[4].contains(from);
    if is_king {
        // If the move would put a king next to the other king, it is out.
        // The distance is measured on square indices, so the filter also
        // rejects a few legal king moves that wrap across the board edge;
        // the cost is a rare unavailable king move, never an unsafe one,
        // and the simulation below stays the sole correctness check.
        let opposite_king = opposite_king_board.trailing_zeros() as i32;
        let d: i32 = opposite_king - to as i32;
        if (d > -2 && d < 2) || (d > 6 && d < 10) || (d > -10 && d < -6) {
            return false;
        }
        // A castling king must not start from, cross or reach an attacked
        // square.
        if (to > from && to - from == 2) || (from > to && from - to == 2) {
            if to == 2 || to == 58 {
                if pos.is_square_attacked_by_color(to, color.not())
                    || pos.is_square_attacked_by_color(to - 1, color.not())
                    || pos.is_square_attacked_by_color(to - 2, color.not()) {
                    return false;
                }
            } else if to == 6 || to == 62 {
                if pos.is_square_attacked_by_color(to, color.not())
                    || pos.is_square_attacked_by_color(to + 1, color.not()) {
                    return false;
                }
            }
        }
    }
    // A move onto a king is no move at all; the original would have taken
    // the king off the board.
    let target = pos.piece_type_at(to);
    let target_is_king = match target {
        Some(p) => p == 4,
        None => false,
    };
    if target_is_king {
        return false;
    }
    proof {
        assert(pos.occ_bit(from as u64) == pos.piece_bit(from as u64));
        assert(fpi(pos.piece_bitboards@, from) != 6);
        if bit64(pos.piece_bitboards@[5].0, from as u64) {
            crate::position::mm_facts_at(
                pos.color_bitboards@,
                pos.piece_bitboards@,
                from,
                to,
                from as u64,
            );
            assert(fpi(pos.piece_bitboards@, from) == 5);
            if color == Color::White {
                crate::game::lemma_pawn_targets(pos@, from, to);
            }
        }
    }
    let mut new_pos = pos.duplicate();
    proof {
        assert(new_pos@ =~= pos@);
    }
    crate::game::apply_move(&mut new_pos, from, to, tables);
    proof {
        crate::game::lemma_apply_keeps_king(*tables, pos@, from, to, color);
    }
    let king_board = BitBoard(
        new_pos.piece_bitboards[4].0 & new_pos.color_bitboards[color.index()].0,
    );
    proof {
        crate::bits::lemma_zero_bit();
        assert(crate::game::has_king(new_pos@, color));
        let kw = choose|k: u64|
            k < 64 && #[trigger] bit64(new_pos@.pb[4].0, k) && bit64(
                new_pos@.cb[color.spec_index()].0,
                k,
            );
        assert(bit64(new_pos@.pb[4].0 & new_pos@.cb[color.spec_index()].0, kw));
        assert(king_board.0 != 0);
    }
    let king_square = king_board.trailing_zeros();
    let attacked = new_pos.is_square_attacked_by_color(king_square, color.not());
    !attacked
}


/// A sequence that holds one element more holds every element the shorter
/// one held, and the new one.
proof fn lemma_push_contains<A>(s: Seq<A>, v: A, x: A)
    requires
        s.contains(x) || v == x,
    ensures
        s.push(v).contains(x),
{
    if s.contains(x) {
        let i = choose|i: int| 0 <= i < s.len() && s[i] == x;
        assert(s.push(v)[i] == x);
    } else {
        assert(s.push(v)[s.len() as int] == x);
    }
}

/// Every returned move is one of the side's pseudo-legal moves and passes
/// the legality filter; and every pseudo-legal move that survives it is
/// returned. The two directions together pin the returned set exactly.
pub open spec fn legal_moves_exact(
    t: AttackTables,
    v: crate::position::BoardView,
    color: Color,
    moves: Seq<(u8, u8)>,
) -> bool {
    &&& forall|i: int|
        0 <= i < moves.len() ==> is_candidate(t, v, color, (#[trigger] moves[i]).0, moves[i].1)
            && spec_move_safe(t, v, color, moves[i].0, moves[i].1)
    &&& forall|f: u8, t2: u8|
        is_candidate(t, v, color, f, t2) && spec_move_safe(t, v, color, f, t2)
            ==> #[trigger] moves.contains((f, t2))
}

/// Gathers the pseudo-legal moves of every piece of `color` and keeps
/// exactly those the legality filter lets through.
#[verifier::loop_isolation(false)]
#[verifier::rlimit(100)]
#[verifier::spinoff_prover]
fn legal_moves_for(color: Color, pos: &mut Position, tables: &AttackTables) -> (moves: Vec<
    (u8, u8),
>)
    requires
        old(pos).wf(),
        tables.wf(),
        crate::game::no_pawns_rank0(old(pos).piece_bitboards@),
        color == old(pos).state.active_player,
        old(pos).state.half_move_counter < 255,
        crate::game::has_king(old(pos)@, color),
        crate::game::has_king(old(pos)@, color.spec_not()),
    ensures
        *final(pos) == *old(pos),
        legal_moves_exact(*tables, old(pos)@, color, moves@),
{
    let mut candidates: Vec<(u8, u8)> = Vec::new();
    proof {
        crate::bits::lemma_subset_bits();
        crate::bits::lemma_single_bit();
        crate::bits::lemma_zero_bit();
    }
    // Iterate over all squares with a piece of the given color
    let mut squares = BitBoard(pos.color_bitboards[color.index()].0);
    while !squares.is_empty()
        invariant
            squares.0 & pos.color_bitboards@[color.spec_index()].0 == squares.0,
            forall|i: int|
                0 <= i < candidates@.len() ==> is_candidate(
                    *tables,
                    pos@,
                    color,
                    (#[trigger] candidates@[i]).0,
                    candidates@[i].1,
                ),
            forall|f: u8, t2: u8|
                is_candidate(*tables, pos@, color, f, t2) && !bit64(squares.0, f as u64)
                    ==> #[trigger] candidates@.contains((f, t2)),
        decreases squares.0,
    {
        let square = squares.trailing_zeros();
        proof {
            vstd::std_specs::bits::axiom_u64_trailing_zeros(squares.0);
            assert(bit64(squares.0, square as u64));
            assert(bit64(pos.color_bitboards@[color.spec_index()].0, square as u64));
            assert(pos.occ_bit(square as u64) == pos.piece_bit(square as u64));
        }
        let piece = pos.piece_at(square).unwrap().0;
        let piece_moves = if piece == 0 || piece == 2 || piece == 3 {
            slider_moves(piece, square, pos, tables)
        } else if piece == 1 {
            get_knight_moves(square, pos)
        } else if piece == 4 {
            get_king_moves(square, pos)
        } else {
            get_pawn_moves(square, pos)
        };
        proof {
            assert(piece_moves.0 == spec_moves_mask(*tables, pos@, square));
        }
        let mut piece_moves_iterator = piece_moves;
        while !piece_moves_iterator.is_empty()
            invariant
                piece_moves_iterator.0 & piece_moves.0 == piece_moves_iterator.0,
                piece_moves.0 == spec_moves_mask(*tables, pos@, square),
                square < 64,
                bit64(pos.color_bitboards@[color.spec_index()].0, square as u64),
                forall|i: int|
                    0 <= i < candidates@.len() ==> is_candidate(
                        *tables,
                        pos@,
                        color,
                        (#[trigger] candidates@[i]).0,
                        candidates@[i].1,
                    ),
                forall|f: u8, t2: u8|
                    is_candidate(*tables, pos@, color, f, t2) && !bit64(squares.0, f as u64)
                        ==> #[trigger] candidates@.contains((f, t2)),
                forall|t2: u8|
                    bit64(piece_moves.0, t2 as u64) && !bit64(piece_moves_iterator.0, t2 as u64)
                        ==> #[trigger] candidates@.contains((square, t2)),
            decreases piece_moves_iterator.0,
        {
            let piece_move = piece_moves_iterator.trailing_zeros();
            let ghost pre_c = candidates@;
            let ghost pre_iter = piece_moves_iterator.0;
            proof {
                vstd::std_specs::bits::axiom_u64_trailing_zeros(pre_iter);
                assert(bit64(pre_iter, piece_move as u64));
                assert(bit64(piece_moves.0, piece_move as u64));
            }
            candidates.push((square, piece_move));
            piece_moves_iterator.clear_lsb();
            proof {
                crate::bits::lemma_clear_lsb_exact(pre_iter);
                assert forall|f: u8, t2: u8|
                    is_candidate(*tables, pos@, color, f, t2) && !bit64(
                        squares.0,
                        f as u64,
                    ) implies #[trigger] candidates@.contains((f, t2)) by {
                    lemma_push_contains(pre_c, (square, piece_move), (f, t2));
                }
                assert forall|t2: u8|
                    bit64(piece_moves.0, t2 as u64) && !bit64(
                        piece_moves_iterator.0,
                        t2 as u64,
                    ) implies #[trigger] candidates@.contains((square, t2)) by {
                    if t2 == piece_move {
                        lemma_push_contains(pre_c, (square, piece_move), (square, t2));
                    } else {
                        assert(!bit64(pre_iter, t2 as u64));
                        lemma_push_contains(pre_c, (square, piece_move), (square, t2));
                    }
                }
            }
        }
        let ghost pre_squares = squares.0;
        squares.clear_lsb();
        proof {
            crate::bits::lemma_clear_lsb_exact(pre_squares);
            assert forall|f: u8, t2: u8|
                is_candidate(*tables, pos@, color, f, t2) && !bit64(
                    squares.0,
                    f as u64,
                ) implies #[trigger] candidates@.contains((f, t2)) by {
                if bit64(pre_squares, f as u64) {
                    assert(f == square);
                    assert(bit64(piece_moves.0, t2 as u64));
                }
            }
        }
    }
    proof {
        assert forall|f: u8, t2: u8|
            is_candidate(*tables, pos@, color, f, t2) implies #[trigger] candidates@.contains(
            (f, t2),
        ) by {
            assert(!bit64(squares.0, f as u64));
        }
    }
    // Keep exactly the candidates that do not put or leave the king in check
    let mut moves: Vec<(u8, u8)> = Vec::new();
    let mut i: usize = 0;
    while i < candidates.len()
        invariant
            forall|j: int|
                0 <= j < candidates@.len() ==> is_candidate(
                    *tables,
                    pos@,
                    color,
                    (#[trigger] candidates@[j]).0,
                    candidates@[j].1,
                ),
            forall|j: int|
                0 <= j < moves@.len() ==> is_candidate(
                    *tables,
                    pos@,
                    color,
                    (#[trigger] moves@[j]).0,
                    moves@[j].1,
                ) && spec_move_safe(*tables, pos@, color, moves@[j].0, moves@[j].1),
            forall|j: int|
                0 <= j < i && spec_move_safe(
                    *tables,
                    pos@,
                    color,
                    (#[trigger] candidates@[j]).0,
                    candidates@[j].1,
                ) ==> moves@.contains(candidates@[j]),
            i <= candidates@.len(),
        decreases candidates.len() - i,
    {
        let (from, to) = candidates[i];
        let ghost pre_m = moves@;
        if move_is_safe(pos, tables, color, from, to) {
            moves.push((from, to));
        }
        proof {
            assert forall|j: int|
                0 <= j < i + 1 && spec_move_safe(
                    *tables,
                    pos@,
                    color,
                    (#[trigger] candidates@[j]).0,
                    candidates@[j].1,
                ) implies moves@.contains(candidates@[j]) by {
                if j < i {
                    if pre_m.contains(candidates@[j]) {
                        if moves@ != pre_m {
                            lemma_push_contains(pre_m, (from, to), candidates@[j]);
                        }
                    }
                } else {
                    lemma_push_contains(pre_m, (from, to), candidates@[j]);
                }
            }
        }
        i = i + 1;
    }
    proof {
        assert forall|f: u8, t2: u8|
            is_candidate(*tables, pos@, color, f, t2) && spec_move_safe(
                *tables,
                pos@,
                color,
                f,
                t2,
            ) implies #[trigger] moves@.contains((f, t2)) by {
            assert(candidates@.contains((f, t2)));
            let j = choose|j: int| 0 <= j < candidates@.len() && candidates@[j] == (f, t2);
            assert(spec_move_safe(
                *tables,
                pos@,
                color,
                candidates@[j].0,
                candidates@[j].1,
            ));
            assert(moves@.contains(candidates@[j]));
        }
    }
    moves
}

pub fn get_all_legal_moves_for_color(color: Color, pos: &mut Position, tables: &AttackTables) -> (
    moves: Vec<(u8, u8)>)
    requires
        old(pos).wf(),
        tables.wf(),
        crate::game::no_pawns_rank0(old(pos).piece_bitboards@),
        color == old(pos).state.active_player,
        old(pos).state.half_move_counter < 255,
        crate::game::has_king(old(pos)@, color),
        crate::game::has_king(old(pos)@, color.spec_not()),
    ensures
        *final(pos) == *old(pos),
        legal_moves_exact(*tables, old(pos)@, color, moves@),
{
    if pos.check {
        return get_legal_moves_from_check(color, pos, tables);
    }
    legal_moves_for(color, pos, tables)
}

/* Movegen path taken when the side to move stands in check. The original
/ narrowed the candidates here as a shortcut; the simulate-and-test step
/ alone decides correctness, so the full candidate set is filtered. */
fn get_legal_moves_from_check(color: Color, pos: &mut Position, tables: &AttackTables) -> (moves:
    Vec<(u8, u8)>)
    requires
        old(pos).wf(),
        tables.wf(),
        crate::game::no_pawns_rank0(old(pos).piece_bitboards@),
        color == old(pos).state.active_player,
        old(pos).state.half_move_counter < 255,
        crate::game::has_king(old(pos)@, color),
        crate::game::has_king(old(pos)@, color.spec_not()),
    ensures
        *final(pos) == *old(pos),
        legal_moves_exact(*tables, old(pos)@, color, moves@),
{
    legal_moves_for(color, pos, tables)
}

/// The captures among the side's pseudo-legal moves that pass the legality
/// filter: every returned move takes an enemy piece, and every legal capture
/// is returned.
pub open spec fn captures_exact(
    t: AttackTables,
    v: crate::position::BoardView,
    color: Color,
    pos: Position,
    moves: Seq<(u8, u8)>,
) -> bool {
    &&& forall|i: int|
        0 <= i < moves.len() ==> is_candidate(t, v, color, (#[trigger] moves[i]).0, moves[i].1)
            && spec_move_safe(t, v, color, moves[i].0, moves[i].1) && pos.spec_is_capture(
            moves[i].1,
        )
    &&& forall|f: u8, t2: u8|
        is_candidate(t, v, color, f, t2) && spec_move_safe(t, v, color, f, t2)
            && pos.spec_is_capture(t2) ==> #[trigger] moves.contains((f, t2))
}

#[verifier::loop_isolation(false)]
pub fn get_all_captures_for_color(color: Color, pos: &mut Position, tables: &AttackTables) -> (
    moves: Vec<(u8, u8)>)
    requires
        old(pos).wf(),
        tables.wf(),
        crate::game::no_pawns_rank0(old(pos).piece_bitboards@),
        color == old(pos).state.active_player,
        old(pos).state.half_move_counter < 255,
        crate::game::has_king(old(pos)@, color),
        crate::game::has_king(old(pos)@, color.spec_not()),
    ensures
        *final(pos) == *old(pos),
        captures_exact(*tables, old(pos)@, color, *old(pos), moves@),
{
    let all_moves = get_all_legal_moves_for_color(color, pos, tables);
    let mut moves: Vec<(u8, u8)> = Vec::new();
    let mut i: usize = 0;
    while i < all_moves.len()
        invariant
            i <= all_moves@.len(),
            legal_moves_exact(*tables, pos@, color, all_moves@),
            forall|j: int|
                0 <= j < moves@.len() ==> is_candidate(
                    *tables,
                    pos@,
                    color,
                    (#[trigger] moves@[j]).0,
                    moves@[j].1,
                ) && spec_move_safe(*tables, pos@, color, moves@[j].0, moves@[j].1)
                    && pos.spec_is_capture(moves@[j].1),
            forall|j: int|
                0 <= j < i && pos.spec_is_capture((#[trigger] all_moves@[j]).1)
                    ==> moves@.contains(all_moves@[j]),
            *pos == *old(pos),
        decreases all_moves@.len() - i,
    {
        let (from, to) = all_moves[i];
        proof {
            assert(is_candidate(*tables, pos@, color, all_moves@[i as int].0, all_moves@[i as int].1));
            assert(to < 64);
            assert(pos.well_sized());
        }
        let ghost pre_m = moves@;
        if pos.is_capture(&to) {
            moves.push((from, to));
        }
        proof {
            assert forall|j: int|
                0 <= j < i + 1 && pos.spec_is_capture(
                    (#[trigger] all_moves@[j]).1,
                ) implies moves@.contains(all_moves@[j]) by {
                if j < i {
                    if pre_m.contains(all_moves@[j]) {
                        if moves@ != pre_m {
                            lemma_push_contains(pre_m, (from, to), all_moves@[j]);
                        }
                    }
                } else {
                    lemma_push_contains(pre_m, (from, to), all_moves@[j]);
                }
            }
        }
        i = i + 1;
    }
    proof {
        assert forall|f: u8, t2: u8|
            is_candidate(*tables, pos@, color, f, t2) && spec_move_safe(
                *tables,
                pos@,
                color,
                f,
                t2,
            ) && pos.spec_is_capture(t2) implies #[trigger] moves@.contains((f, t2)) by {
            assert(all_moves@.contains((f, t2)));
            let j = choose|j: int| 0 <= j < all_moves@.len() && all_moves@[j] == (f, t2);
            assert(pos.spec_is_capture(all_moves@[j].1));
            assert(moves@.contains(all_moves@[j]));
        }
    }
    moves
}

/// Purity of the sliding-attack lookup: the answer is a function of the
/// piece, the square, the occupancy and the tables alone, so two calls on
/// the same inputs agree.
pub proof fn lemma_sliding_attacks_pure(
    t: AttackTables,
    piece: u8,
    square: u8,
    occ: u64,
    r1: u64,
    r2: u64,
)
    requires
        r1 == spec_pseudo_slider(t, piece, square, occ),
        r2 == spec_pseudo_slider(t, piece, square, occ),
    ensures
        r1 == r2,
{
}

} // verus!
