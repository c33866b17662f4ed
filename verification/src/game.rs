use vstd::prelude::*;
use vstd::std_specs::bits::u64_trailing_zeros;
use crate::bitboard::BitBoard;
use crate::bits::{bit64, lemma_or_bit, lemma_and_bit, lemma_xor_bit, lemma_single_bit, lemma_clear_lsb_decreases, lemma_subset_bits};
use crate::position::{Position, BoardView, col_at, fpi, occ_s, mm_colors, mm_pieces, mm_state, mm_ep, boards_ok, lemma_make_move_ok};
use crate::state::{State, Color, Castling, GameResult, Results, Piece};
use crate::magics::AttackTables;
use crate::movegen;

verus! {

/// No pawn stands on the first rank; a pawn there would have no attack
/// pattern to read.
pub open spec fn no_pawns_rank0(pb: Seq<BitBoard>) -> bool {
    forall|k: u64| k < 8 ==> !(#[trigger] bit64(pb[5].0, k))
}

/// The side `c` is checkmated: it stands in check and none of its
/// pseudo-legal moves passes the legality filter.
pub open spec fn spec_checkmated(t: AttackTables, v: BoardView, c: Color) -> bool {
    v.check && !(exists|f: u8, t2: u8|
        #[trigger] movegen::is_candidate(t, v, c, f, t2) && movegen::spec_move_safe(t, v, c, f, t2))
}

/// The side `c` still has a king on the board.
pub open spec fn has_king(v: BoardView, c: Color) -> bool {
    exists|k: u64|
        k < 64 && #[trigger] bit64(v.pb[4].0, k) && bit64(v.cb[c.spec_index()].0, k)
}

/// What the attack board of the piece on square `k` is recomputed to:
/// magic lookups for the sliders, the fixed tables for knight and king,
/// the shifted pattern for a pawn.
pub open spec fn spec_attack_of(t: AttackTables, v: BoardView, k: u8) -> u64 {
    let piece = fpi(v.pb, k);
    if piece == 0 || piece == 2 || piece == 3 {
        movegen::spec_pseudo_slider(t, piece, k, v.cb[0].0 | v.cb[1].0)
    } else if piece == 1 {
        movegen::spec_knight_table()[k as int]
    } else if piece == 4 {
        movegen::spec_king_moves(v, k)
    } else if piece == 5 {
        if k >= 8 {
            movegen::spec_pawn_attacks(k, col_at(v.cb, k).spec_index())
        } else {
            0
        }
    } else {
        0
    }
}

/// The attack boards after recomputing every occupied square of `board`,
/// lowest square first.
pub open spec fn spec_update_attacks(t: AttackTables, v: BoardView, board: u64) -> Seq<BitBoard>
    decreases board,
    via spec_update_attacks_decreases
{
    if board == 0 {
        v.ab
    } else {
        let k = u64_trailing_zeros(board) as u8;
        spec_update_attacks(
            t,
            BoardView {
                ab: v.ab.update(k as int, BitBoard(spec_attack_of(t, v, k))),
                ..v
            },
            board & ((board - 1) as u64),
        )
    }
}

#[via_fn]
proof fn spec_update_attacks_decreases(t: AttackTables, v: BoardView, board: u64) {
    lemma_clear_lsb_decreases();
}

/* Find all sliders that are attacking the given square by using a fictitious
/ queen that can move in all directions, getting all possible moves for that
/ piece and then filtering out the sliders from the resulting bitboard. */
pub open spec fn spec_attacking_sliders(t: AttackTables, v: BoardView, from: u8) -> u64 {
    movegen::spec_pseudo_slider(t, 3, from, v.cb[0].0 | v.cb[1].0) & (v.pb[0].0 | v.pb[2].0
        | v.pb[3].0)
}

pub fn get_attacking_sliders(pos: &mut Position, from: u8, tables: &AttackTables) -> (r: BitBoard)
    requires
        old(pos).well_sized(),
        from < 64,
        tables.wf(),
    ensures
        *final(pos) == *old(pos),
        r.0 == spec_attacking_sliders(*tables, old(pos)@, from),
{
    let mut attacking_sliders = movegen::pseudolegal_slider_moves(3, from, pos, tables);
    attacking_sliders = BitBoard(
        attacking_sliders.0 & (pos.piece_bitboards[0].0 | pos.piece_bitboards[2].0
            | pos.piece_bitboards[3].0),
    );
    attacking_sliders
}

#[verifier::loop_isolation(false)]
pub fn update_attackers(pos: &mut Position, attackers: BitBoard, tables: &AttackTables)
    requires
        old(pos).wf(),
        tables.wf(),
        no_pawns_rank0(old(pos).piece_bitboards@),
    ensures
        final(pos).attack_bitboards@ == spec_update_attacks(
            *tables,
            old(pos)@,
            attackers.0 & (old(pos).color_bitboards@[0].0 | old(pos).color_bitboards@[1].0),
        ),
        final(pos).color_bitboards@ == old(pos).color_bitboards@,
        final(pos).piece_bitboards@ == old(pos).piece_bitboards@,
        final(pos).state == old(pos).state,
        final(pos).attacked_by_white == old(pos).attacked_by_white,
        final(pos).attacked_by_black == old(pos).attacked_by_black,
        final(pos).move_history@ == old(pos).move_history@,
        final(pos).en_passant_square == old(pos).en_passant_square,
        final(pos).check == old(pos).check,
        final(pos).wf(),
{
    let mut attacker_board = BitBoard(
        attackers.0 & (pos.color_bitboards[0].0 | pos.color_bitboards[1].0),
    );
    proof {
        lemma_or_bit();
        lemma_and_bit();
        lemma_single_bit();
        lemma_subset_bits();
    }
    while !attacker_board.is_empty()
        invariant
            pos.wf(),
            tables.wf(),
            no_pawns_rank0(pos.piece_bitboards@),
            pos.color_bitboards@ == old(pos).color_bitboards@,
            pos.piece_bitboards@ == old(pos).piece_bitboards@,
            pos.state == old(pos).state,
            pos.attacked_by_white == old(pos).attacked_by_white,
            pos.attacked_by_black == old(pos).attacked_by_black,
            pos.move_history@ == old(pos).move_history@,
            pos.en_passant_square == old(pos).en_passant_square,
            pos.check == old(pos).check,
            attacker_board.0 & (pos.color_bitboards@[0].0 | pos.color_bitboards@[1].0)
                == attacker_board.0,
            spec_update_attacks(*tables, pos@, attacker_board.0) == spec_update_attacks(
                *tables,
                old(pos)@,
                attackers.0 & (old(pos).color_bitboards@[0].0 | old(pos).color_bitboards@[1].0),
            ),
        decreases attacker_board.0,
    {
        let index = attacker_board.trailing_zeros();
        proof {
            vstd::std_specs::bits::axiom_u64_trailing_zeros(attacker_board.0);
            lemma_subset_bits();
            assert(bit64(attacker_board.0, index as u64));
            assert(bit64(
                pos.color_bitboards@[0].0 | pos.color_bitboards@[1].0,
                index as u64,
            ));
            assert(pos.occ_bit(index as u64) == pos.piece_bit(index as u64));
        }
        let piece_opt = pos.piece_type_at(index);
        let attacks = match piece_opt {
            Some(piece) => {
                if piece == 0 || piece == 2 || piece == 3 {
                    movegen::pseudolegal_slider_moves(piece, index, pos, tables)
                } else if piece == 1 {
                    movegen::get_pseudolegal_knight_moves(index)
                } else if piece == 4 {
                    movegen::get_king_moves(index, pos)
                } else {
                    movegen::pawn_attacks(index, pos.piece_color(index).index())
                }
            },
            None => {
                // An occupied square always carries a piece type.
                proof {
                    assert(false);
                }
                BitBoard(0)
            },
        };
        proof {
            assert(attacks.0 == spec_attack_of(*tables, pos@, index));
        }
        let ghost pre = pos@;
        let ghost pre_board = attacker_board.0;
        pos.update_attack_maps(index, attacks);
        proof {
            lemma_clear_lsb_decreases();
            assert(spec_update_attacks(*tables, pre, pre_board) == spec_update_attacks(
                *tables,
                pos@,
                pre_board & ((pre_board - 1) as u64),
            ));
        }
        attacker_board.clear_lsb();
    }
    proof {
        assert(spec_update_attacks(*tables, pos@, 0) == pos.attack_bitboards@);
    }
}


/// The rook hop of a castling move can be made: the squares are on the
/// board, a rook or king stands on the source, the target is one of the four
/// hop targets and empty, and the clock can still advance.
pub open spec fn castle_legs_ok(v: BoardView, rf: u8, rt: u8) -> bool {
    &&& rf < 64
    &&& rt < 64
    &&& rf != rt
    &&& v.state.half_move_counter < 255
    &&& (fpi(v.pb, rf) == 0 || fpi(v.pb, rf) == 4)
    &&& (rt == 3 || rt == 5 || rt == 59 || rt == 61)
    &&& !occ_s(v.cb, rt as u64)
}

/// Whether `from` and `to` lie more than one file apart: a king moving this
/// way is castling.
pub open spec fn files_apart(from: u8, to: u8) -> bool {
    from % 8 > to % 8 + 1 || to % 8 > from % 8 + 1
}

/// The whole view after a committed move: the board move itself, the rook
/// hop of a castling king, the promotion of a pawn on its last rank, the
/// removal of a pawn taken en passant, the attack boards of every square
/// whose line of sight changed recomputed, and the check flag set for the
/// side now to move.
#[verifier::opaque]
pub open spec fn bv_apply_move(t: AttackTables, v: BoardView, from: u8, to: u8) -> BoardView {
    let a0 = 0u64 | spec_attacking_sliders(t, v, from);
    let is_pawn = bit64(v.pb[5].0, from as u64);
    let is_king = bit64(v.pb[4].0, from as u64);
    let ep_square = v.ep;
    let v1 = crate::position::bv_make_move(v, from, to);
    let a1 = a0 | spec_attacking_sliders(t, v1, to);
    let vc = if is_king && files_apart(from, to) {
        if from > to {
            if to >= 2 && castle_legs_ok(v1, (to - 2) as u8, (from - 1) as u8) {
                (
                    crate::position::bv_castle(v1, (to - 2) as u8, (from - 1) as u8),
                    (a1 | (1u64 << ((from - 1) as u64))) ^ (1u64 << ((to - 1) as u64)),
                )
            } else {
                (v1, a1)
            }
        } else {
            if to < 63 && from < 63 && castle_legs_ok(v1, (to + 1) as u8, (from + 1) as u8) {
                (
                    crate::position::bv_castle(v1, (to + 1) as u8, (from + 1) as u8),
                    (a1 | (1u64 << ((from + 1) as u64))) ^ (1u64 << ((to + 1) as u64)),
                )
            } else {
                (v1, a1)
            }
        }
    } else {
        (v1, a1)
    };
    let v2 = vc.0;
    let a2 = vc.1;
    let vp = if is_pawn {
        let mover = v2.state.active_player.spec_not();
        let v3 = if mover == Color::White && to / 8 == 7 {
            crate::position::bv_promote(v2, to, 3)
        } else if mover == Color::Black && to / 8 == 0 {
            crate::position::bv_promote(v2, to, 3)
        } else {
            v2
        };
        match ep_square {
            Some(e) => if to == e {
                let act = v3.state.active_player;
                if (act == Color::White && to < 56) || (act == Color::Black && to >= 8) {
                    let ep_target = if act == Color::White {
                        (to + 8) as u8
                    } else {
                        (to - 8) as u8
                    };
                    let m = 1u64 << (ep_target as u64);
                    let ci = act.spec_index();
                    if bit64(v3.pb[5].0, ep_target as u64) && bit64(v3.cb[ci].0, ep_target as u64)
                        && col_at(v3.cb, ep_target) == act {
                        (
                            BoardView {
                                cb: v3.cb.update(ci, BitBoard(v3.cb[ci].0 ^ m)),
                                pb: v3.pb.update(5, BitBoard(v3.pb[5].0 ^ m)),
                                ..v3
                            },
                            a2 | spec_attacking_sliders(t, v3, ep_target),
                        )
                    } else {
                        (v3, a2)
                    }
                } else {
                    (v3, a2)
                }
            } else {
                (v3, a2)
            },
            None => (v3, a2),
        }
    } else {
        (v2, a2)
    };
    let v4 = vp.0;
    let a4 = vp.1 | (1u64 << (to as u64));
    let v5 = BoardView {
        ab: spec_update_attacks(t, v4, a4 & (v4.cb[0].0 | v4.cb[1].0)),
        ..v4
    };
    let act = v5.state.active_player;
    let king_board = v5.pb[4].0 & v5.cb[act.spec_index()].0;
    let ks = u64_trailing_zeros(king_board) as u8;
    BoardView { check: crate::position::attacked_by(v5, ks, act.spec_not()), ..v5 }
}


/// Whether the rook hop of a castling move can be made here and now.
fn castle_legs(pos: &Position, rf: u8, rt: u8) -> (r: bool)
    requires
        pos.well_sized(),
    ensures
        r == castle_legs_ok(pos@, rf, rt),
{
    if !(rf < 64 && rt < 64 && rf != rt) {
        return false;
    }
    if !(pos.state.half_move_counter < 255) {
        return false;
    }
    let pt = pos.piece_type_at(rf);
    let piece_fits = match pt {
        Some(p) => p == 0 || p == 4,
        None => false,
    };
    if !piece_fits {
        return false;
    }
    if !(rt == 3 || rt == 5 || rt == 59 || rt == 61) {
        return false;
    }
    if pos.color_bitboards[0].contains(rt) || pos.color_bitboards[1].contains(rt) {
        return false;
    }
    true
}

#[verifier::rlimit(100)]
#[verifier::spinoff_prover]
pub fn apply_move(pos: &mut Position, from: u8, to: u8, tables: &AttackTables)
    requires
        old(pos).wf(),
        tables.wf(),
        no_pawns_rank0(old(pos).piece_bitboards@),
        from < 64,
        to < 64,
        from != to,
        (old(pos).spec_piece_at(from) is Some),
        col_at(old(pos).color_bitboards@, from) == old(pos).state.active_player,
        fpi(old(pos).piece_bitboards@, to) != 4,
        !(old(pos).spec_piece_at(to) is Some) ==> old(pos).state.half_move_counter < 255,
        has_king(old(pos)@, old(pos).state.active_player.spec_not()),
        (bit64(old(pos).piece_bitboards@[5].0, from as u64) && old(pos).state.active_player
            == Color::White) ==> to >= 8,
    ensures
        final(pos)@ == bv_apply_move(*tables, old(pos)@, from, to),
        final(pos).wf(),
        no_pawns_rank0(final(pos).piece_bitboards@),
        final(pos).state.active_player == old(pos).state.active_player.spec_not(),
        final(pos).state.half_move_counter <= old(pos).state.half_move_counter + 2,
        old(pos).spec_is_capture(to) ==> final(pos).state.half_move_counter <= 1,
{
    proof {
        lemma_or_bit();
        lemma_xor_bit();
        lemma_single_bit();
        crate::bits::lemma_zero_bit();
        crate::position::mm_facts_at(
            old(pos).color_bitboards@,
            old(pos).piece_bitboards@,
            from,
            to,
            from as u64,
        );
        crate::position::mm_facts_at(
            old(pos).color_bitboards@,
            old(pos).piece_bitboards@,
            from,
            to,
            to as u64,
        );
    }
    let mut attackers_to_update = BitBoard::empty();

    // Add sliders that are no longer blocked by the moved piece to the list
    // of squares to update
    let freed_from = get_attacking_sliders(pos, from, tables);
    attackers_to_update = BitBoard(attackers_to_update.0 | freed_from.0);

    let is_pawn = pos.piece_bitboards[5].contains(from);
    let is_king = pos.piece_bitboards[4].contains(from);

    let ep_square: Option<u8> = pos.en_passant_square;

    pos.make_move(&from, &to);
    let ghost v1 = pos@;
    let ghost act = pos.state.active_player;
    let ghost mut kw: u64 = 0;
    proof {
        assert(v1 =~= crate::position::bv_make_move(old(pos)@, from, to));
        // The king of the side now to move is still standing: it was not the
        // mover's piece, and the move did not capture a king.
        kw = choose|k: u64|
            k < 64 && #[trigger] bit64(old(pos).piece_bitboards@[4].0, k) && bit64(
                old(pos).color_bitboards@[act.spec_index()].0,
                k,
            );
        crate::position::mm_facts_at(
            old(pos).color_bitboards@,
            old(pos).piece_bitboards@,
            from,
            to,
            kw,
        );
        assert(kw != from as u64);
        assert(kw != to as u64);
        assert(bit64(v1.pb[4].0, kw) && bit64(v1.cb[act.spec_index()].0, kw));
    }

    // Add sliders that now have their path blocked by the moved piece
    let freed_to = get_attacking_sliders(pos, to, tables);
    attackers_to_update = BitBoard(attackers_to_update.0 | freed_to.0);

    // If the move is a castling move, move the rook as well; a hop whose
    // squares do not carry what castling expects is skipped, where the
    // original stopped the game.
    let file_from = from % 8;
    let file_to = to % 8;
    if is_king && (file_from > file_to + 1 || file_to > file_from + 1) {
        if from > to {
            if to >= 2 && castle_legs(pos, to - 2, from - 1) {
                pos.make_castling_move(&(to - 2), &(from - 1));
                attackers_to_update = BitBoard(attackers_to_update.0 | (1u64 << (from - 1)));
                attackers_to_update = BitBoard(attackers_to_update.0 ^ (1u64 << (to - 1)));
                proof {
                    assert(pos@ =~= crate::position::bv_castle(v1, (to - 2) as u8, (from - 1) as u8));
                    crate::position::mm_facts_at(v1.cb, v1.pb, (to - 2) as u8, (from - 1) as u8, kw);
                    if kw == (to - 2) as u64 {
                        kw = (from - 1) as u64;
                    }
                    assert(bit64(pos@.pb[4].0, kw) && bit64(pos@.cb[act.spec_index()].0, kw));

                }
            }
        } else {
            if to < 63 && from < 63 && castle_legs(pos, to + 1, from + 1) {
                pos.make_castling_move(&(to + 1), &(from + 1));
                attackers_to_update = BitBoard(attackers_to_update.0 | (1u64 << (from + 1)));
                attackers_to_update = BitBoard(attackers_to_update.0 ^ (1u64 << (to + 1)));
                proof {
                    assert(pos@ =~= crate::position::bv_castle(v1, (to + 1) as u8, (from + 1) as u8));
                    crate::position::mm_facts_at(v1.cb, v1.pb, (to + 1) as u8, (from + 1) as u8, kw);
                    if kw == (to + 1) as u64 {
                        kw = (from + 1) as u64;
                    }
                    assert(bit64(pos@.pb[4].0, kw) && bit64(pos@.cb[act.spec_index()].0, kw));

                }
            }
        }
    }
    let ghost v2 = pos@;

    // Check for promotion, auto-promote to queen. Remove the pawn taken en
    // passant; a takeable pawn that is not there is left alone, where the
    // original corrupted the boards.
    if is_pawn {
        proof {
            assert(fpi(old(pos).piece_bitboards@, from) == 5);
            assert(bit64(pos.piece_bitboards@[5].0, to as u64));
        }
        match pos.state.active_player.not() {
            Color::White => {
                if to / 8 == 7 {
                    pos.promote_pawn(to, Piece::QUEEN);
                }
            },
            Color::Black => {
                if to / 8 == 0 {
                    pos.promote_pawn(to, Piece::QUEEN);
                }
            },
        }
        let ghost v3 = pos@;
        match ep_square {
            Some(ep) => {
                if to == ep {
                    let act = pos.state.active_player;
                    let bounds_ok = match act {
                        Color::White => to < 56,
                        Color::Black => to >= 8,
                    };
                    if bounds_ok {
                        let ep_target = match act {
                            Color::White => to + 8,
                            Color::Black => to - 8,
                        };
                        let ci = act.index();
                        if pos.piece_bitboards[5].contains(ep_target) && pos.color_bitboards[ci].contains(ep_target) {
                            proof {
                                assert(col_at(pos.color_bitboards@, ep_target) == act);
                            }
                            let freed_ep = get_attacking_sliders(pos, ep_target, tables);
                            attackers_to_update = BitBoard(attackers_to_update.0 | freed_ep.0);
                            proof {
                                crate::position::lemma_remove_piece_ok(
                                    pos.color_bitboards@,
                                    pos.piece_bitboards@,
                                    5,
                                    ep_target,
                                );
                            }
                            let m = BitBoard::from_square(ep_target);
                            proof {
                                crate::position::mm_facts_at(
                                    pos.color_bitboards@,
                                    pos.piece_bitboards@,
                                    ep_target,
                                    ep_target,
                                    kw,
                                );
                                assert(kw != ep_target as u64);
                            }
                            pos.color_bitboards.set(ci, BitBoard(pos.color_bitboards[ci].0 ^ m.0));
                            pos.piece_bitboards.set(5, BitBoard(pos.piece_bitboards[5].0 ^ m.0));
                            proof {
                                assert(bit64(pos@.pb[4].0, kw) && bit64(
                                    pos@.cb[act.spec_index()].0,
                                    kw,
                                ));
                            }
                        }
                    }
                }
            },
            None => {},
        }
    }
    let ghost v4 = pos@;
    attackers_to_update = BitBoard(attackers_to_update.0 | (1u64 << to));
    proof {
        assert(no_pawns_rank0(pos.piece_bitboards@)) by {
            assert forall|k: u64| k < 8 implies !(#[trigger] bit64(
                pos.piece_bitboards@[5].0,
                k,
            )) by {
                assert(!bit64(old(pos).piece_bitboards@[5].0, k));
            }
        }
    }
    update_attackers(pos, attackers_to_update, tables);
    let ghost v5 = pos@;

    let king_square = match pos.state.active_player {
        Color::White => BitBoard(pos.piece_bitboards[4].0 & pos.color_bitboards[0].0),
        Color::Black => BitBoard(pos.piece_bitboards[4].0 & pos.color_bitboards[1].0),
    };
    proof {
        lemma_and_bit();
        assert(bit64(v5.pb[4].0, kw) && bit64(v5.cb[act.spec_index()].0, kw));
        assert(bit64(v5.pb[4].0 & v5.cb[act.spec_index()].0, kw));
        assert(king_square.0 != 0);
    }
    // The side now to move always has a king; the original stopped the game
    // when it did not.
    let ks = king_square.trailing_zeros();
    let chk = pos.is_square_attacked_by_color(ks, pos.state.active_player.not());
    pos.check = chk;
    proof {
        reveal(crate::game::bv_apply_move);
        assert(pos@ =~= bv_apply_move(*tables, old(pos)@, from, to));
    }
}


/// Applying a move never costs a side its king, as long as the move does not
/// land on a king: a king that moves, or hops in a castling, stands on its
/// new square afterwards, and every other king keeps its place.
pub proof fn lemma_apply_keeps_king(t: AttackTables, v: BoardView, from: u8, to: u8, c: Color)
    requires
        v.cb.len() == 2,
        v.pb.len() == 6,
        boards_ok(v.cb, v.pb),
        from < 64,
        to < 64,
        from != to,
        fpi(v.pb, from) != 6,
        fpi(v.pb, to) != 4,
        has_king(v, c),
    ensures
        has_king(bv_apply_move(t, v, from, to), c),
{
    reveal(crate::game::bv_apply_move);
    lemma_or_bit();
    lemma_xor_bit();
    lemma_single_bit();
    let mut kw: u64 = choose|k: u64|
        k < 64 && #[trigger] bit64(v.pb[4].0, k) && bit64(v.cb[c.spec_index()].0, k);
    crate::position::mm_facts_at(v.cb, v.pb, from, to, kw);
    let v1 = crate::position::bv_make_move(v, from, to);
    crate::position::lemma_make_move_ok(v.cb, v.pb, from, to);
    if kw == from as u64 {
        kw = to as u64;
    } else {
        assert(kw != to as u64);
    }
    assert(bit64(v1.pb[4].0, kw) && bit64(v1.cb[c.spec_index()].0, kw));
    let is_pawn = bit64(v.pb[5].0, from as u64);
    let is_king = bit64(v.pb[4].0, from as u64);
    let vc = if is_king && files_apart(from, to) {
        if from > to {
            if to >= 2 && castle_legs_ok(v1, (to - 2) as u8, (from - 1) as u8) {
                crate::position::bv_castle(v1, (to - 2) as u8, (from - 1) as u8)
            } else {
                v1
            }
        } else {
            if to < 63 && from < 63 && castle_legs_ok(v1, (to + 1) as u8, (from + 1) as u8) {
                crate::position::bv_castle(v1, (to + 1) as u8, (from + 1) as u8)
            } else {
                v1
            }
        }
    } else {
        v1
    };
    if is_king && files_apart(from, to) {
        if from > to {
            if to >= 2 && castle_legs_ok(v1, (to - 2) as u8, (from - 1) as u8) {
                crate::position::mm_facts_at(v1.cb, v1.pb, (to - 2) as u8, (from - 1) as u8, kw);
                crate::position::lemma_make_move_ok(v1.cb, v1.pb, (to - 2) as u8, (from - 1) as u8);
                if kw == (to - 2) as u64 {
                    kw = (from - 1) as u64;
                }
            }
        } else {
            if to < 63 && from < 63 && castle_legs_ok(v1, (to + 1) as u8, (from + 1) as u8) {
                crate::position::mm_facts_at(v1.cb, v1.pb, (to + 1) as u8, (from + 1) as u8, kw);
                crate::position::lemma_make_move_ok(v1.cb, v1.pb, (to + 1) as u8, (from + 1) as u8);
                if kw == (to + 1) as u64 {
                    kw = (from + 1) as u64;
                }
            }
        }
    }
    assert(boards_ok(vc.cb, vc.pb));
    assert(bit64(vc.pb[4].0, kw) && bit64(vc.cb[c.spec_index()].0, kw));
    let v4 = bv_apply_move(t, v, from, to);
    if is_pawn {
        let mover = vc.state.active_player.spec_not();
        let v3 = if mover == Color::White && to / 8 == 7 {
            crate::position::bv_promote(vc, to, 3)
        } else if mover == Color::Black && to / 8 == 0 {
            crate::position::bv_promote(vc, to, 3)
        } else {
            vc
        };
        if mover == Color::White && to / 8 == 7 || mover == Color::Black && to / 8 == 0 {
            assert(fpi(v.pb, from) == 5);
            assert(bit64(vc.pb[5].0, to as u64));
            crate::position::lemma_promote_ok(vc.cb, vc.pb, to, 3);
        }
        assert(bit64(v3.pb[4].0, kw) && bit64(v3.cb[c.spec_index()].0, kw));
        assert(boards_ok(v3.cb, v3.pb));
        match v.ep {
            Some(e) => if to == e {
                let act = v3.state.active_player;
                if (act == Color::White && to < 56) || (act == Color::Black && to >= 8) {
                    let ep_target = if act == Color::White {
                        (to + 8) as u8
                    } else {
                        (to - 8) as u8
                    };
                    if bit64(v3.pb[5].0, ep_target as u64) && bit64(
                        v3.cb[act.spec_index()].0,
                        ep_target as u64,
                    ) && col_at(v3.cb, ep_target) == act {
                        crate::position::mm_facts_at(v3.cb, v3.pb, ep_target, ep_target, kw);
                        assert(kw != ep_target as u64);
                    }
                }
            } else {
            },
            None => {},
        }
    }
    assert(kw < 64 && bit64(v4.pb[4].0, kw) && bit64(v4.cb[c.spec_index()].0, kw));
}

/// A white pawn's move mask never reaches the first rank: every push and
/// capture goes one or two ranks up.
pub proof fn lemma_pawn_targets(v: BoardView, from: u8, to: u8)
    requires
        v.cb.len() == 2,
        v.pb.len() == 6,
        from < 64,
        to < 64,
        col_at(v.cb, from) == Color::White,
        bit64(movegen::spec_pawn_moves(v, from), to as u64),
    ensures
        to >= 8,
{
    lemma_or_bit();
    lemma_single_bit();
    crate::bits::lemma_zero_bit();
}


pub fn would_give_check(pos: &mut Position, from: u8, to: u8, tables: &AttackTables) -> (r: bool)
    requires
        old(pos).wf(),
        tables.wf(),
        no_pawns_rank0(old(pos).piece_bitboards@),
        from < 64,
        to < 64,
        from != to,
        (old(pos).spec_piece_at(from) is Some),
        col_at(old(pos).color_bitboards@, from) == old(pos).state.active_player,
        fpi(old(pos).piece_bitboards@, to) != 4,
        old(pos).state.half_move_counter < 255,
        has_king(old(pos)@, old(pos).state.active_player.spec_not()),
        (bit64(old(pos).piece_bitboards@[5].0, from as u64) && old(pos).state.active_player
            == Color::White) ==> to >= 8,
    ensures
        *final(pos) == *old(pos),
        r == bv_apply_move(*tables, old(pos)@, from, to).check,
{
    let mut new_pos = pos.duplicate();
    proof {
        assert(new_pos@ =~= pos@);
    }
    apply_move(&mut new_pos, from, to, tables);
    new_pos.check
}

pub fn is_in_checkmate(pos: &mut Position, tables: &AttackTables) -> (r: bool)
    requires
        old(pos).wf(),
        tables.wf(),
        no_pawns_rank0(old(pos).piece_bitboards@),
        old(pos).state.half_move_counter < 255,
        has_king(old(pos)@, old(pos).state.active_player),
        has_king(old(pos)@, old(pos).state.active_player.spec_not()),
    ensures
        *final(pos) == *old(pos),
        r == spec_checkmated(*tables, old(pos)@, old(pos).state.active_player),
{
    if pos.check {
        let legal_moves = movegen::get_all_legal_moves_for_color(
            pos.state.active_player,
            pos,
            tables,
        );
        if legal_moves.len() == 0 {
            proof {
                // Completeness of the generator: an empty list means no
                // pseudo-legal move survives the filter.
                assert forall|f: u8, t2: u8|
                    !(#[trigger] movegen::is_candidate(
                        *tables,
                        pos@,
                        pos.state.active_player,
                        f,
                        t2,
                    ) && movegen::spec_move_safe(
                        *tables,
                        pos@,
                        pos.state.active_player,
                        f,
                        t2,
                    )) by {
                    if movegen::is_candidate(*tables, pos@, pos.state.active_player, f, t2)
                        && movegen::spec_move_safe(*tables, pos@, pos.state.active_player, f, t2) {
                        assert(legal_moves@.contains((f, t2)));
                    }
                }
            }
            return true;
        }
        proof {
            assert(movegen::is_candidate(
                *tables,
                pos@,
                pos.state.active_player,
                legal_moves@[0].0,
                legal_moves@[0].1,
            ) && movegen::spec_move_safe(
                *tables,
                pos@,
                pos.state.active_player,
                legal_moves@[0].0,
                legal_moves@[0].1,
            ));
        }
    }
    false
}

#[verifier::loop_isolation(false)]
pub fn make_player_move(pos: &mut Position, from: u8, to: u8, tables: &AttackTables) -> (r: Result<
    (),
    &'static str,
>)
    requires
        old(pos).wf(),
        tables.wf(),
        no_pawns_rank0(old(pos).piece_bitboards@),
        from < 64,
        to < 64,
        old(pos).state.half_move_counter < 255,
        has_king(old(pos)@, old(pos).state.active_player),
        has_king(old(pos)@, old(pos).state.active_player.spec_not()),
    ensures
        (r is Err) ==> *final(pos) == *old(pos),
        (r is Ok) <==> (movegen::is_candidate(
            *tables,
            old(pos)@,
            old(pos).state.active_player,
            from,
            to,
        ) && movegen::spec_move_safe(*tables, old(pos)@, old(pos).state.active_player, from, to)),
        (r is Ok) ==> final(pos)@ == (crate::position::BoardView {
            hist: bv_apply_move(*tables, old(pos)@, from, to).hist.push((from, to)),
            ..bv_apply_move(*tables, old(pos)@, from, to)
        }),
        (r is Ok) ==> final(pos).wf(),
{
    let color = pos.state.active_player;
    // Check if the targetted square contains a piece of the active player's color
    match pos.piece_at(from) {
        Some(piece) => {
            if piece.1 != pos.state.active_player {
                proof {
                    // A piece on the mover's own occupancy board has the
                    // mover's color, so this square holds no candidate.
                    assert(!(bit64(pos.color_bitboards@[0].0, from as u64) && bit64(
                        pos.color_bitboards@[1].0,
                        from as u64,
                    )));
                }
                return Err("Piece does not belong to active player.");
            }
        },
        None => {
            proof {
                // An empty square starts no candidate move.
                assert(pos.occ_bit(from as u64) == pos.piece_bit(from as u64));
            }
            return Err("Illegal move: no piece on origin square.");
        },
    }
    let legal_moves = movegen::get_all_legal_moves_for_color(color, pos, tables);

    // Check if the move is legal by looking for it in the list of legal moves
    let mut found = false;
    let mut i: usize = 0;
    while i < legal_moves.len()
        invariant
            i <= legal_moves@.len(),
            found ==> movegen::is_candidate(*tables, pos@, color, from, to)
                && movegen::spec_move_safe(*tables, pos@, color, from, to),
            !found ==> forall|j: int| 0 <= j < i ==> (#[trigger] legal_moves@[j]) != (from, to),
        decreases legal_moves@.len() - i,
    {
        let (f, t) = legal_moves[i];
        if f == from && t == to {
            proof {
                assert(movegen::is_candidate(
                    *tables,
                    pos@,
                    color,
                    legal_moves@[i as int].0,
                    legal_moves@[i as int].1,
                ));
            }
            found = true;
        }
        i = i + 1;
    }
    if !found {
        proof {
            // Completeness of the generator: a pseudo-legal move that
            // survives the filter would have been in the list.
            if movegen::is_candidate(*tables, pos@, color, from, to) && movegen::spec_move_safe(
                *tables,
                pos@,
                color,
                from,
                to,
            ) {
                assert(legal_moves@.contains((from, to)));
            }
        }
        return Err("Not a legal move.");
    }
    proof {
        crate::bits::lemma_single_bit();
        assert(pos.occ_bit(from as u64) == pos.piece_bit(from as u64));
        if bit64(pos.piece_bitboards@[5].0, from as u64) {
            crate::position::mm_facts_at(
                pos.color_bitboards@,
                pos.piece_bitboards@,
                from,
                to,
                from as u64,
            );
            if color == Color::White {
                lemma_pawn_targets(pos@, from, to);
            }
        }
    }
    apply_move(pos, from, to, tables);
    pos.move_history.push((from, to));
    Ok(())
}

#[verifier::loop_isolation(false)]
pub fn is_quiet_position(pos: &mut Position, tables: &AttackTables) -> (r: bool)
    requires
        old(pos).wf(),
        tables.wf(),
        no_pawns_rank0(old(pos).piece_bitboards@),
        old(pos).state.half_move_counter < 255,
        has_king(old(pos)@, old(pos).state.active_player),
        has_king(old(pos)@, old(pos).state.active_player.spec_not()),
    ensures
        *final(pos) == *old(pos),
        r == !(exists|f: u8, t2: u8|
            #[trigger] movegen::is_candidate(
                *tables,
                old(pos)@,
                old(pos).state.active_player,
                f,
                t2,
            ) && movegen::spec_move_safe(*tables, old(pos)@, old(pos).state.active_player, f, t2)
                && old(pos).spec_is_capture(t2)),
{
    let legal_moves = movegen::get_all_legal_moves_for_color(pos.state.active_player, pos, tables);
    let mut i: usize = 0;
    while i < legal_moves.len()
        invariant
            i <= legal_moves@.len(),
            *pos == *old(pos),
            movegen::legal_moves_exact(*tables, pos@, pos.state.active_player, legal_moves@),
            forall|j: int|
                0 <= j < i ==> !pos.spec_is_capture((#[trigger] legal_moves@[j]).1),
        decreases legal_moves@.len() - i,
    {
        let (_from, to) = legal_moves[i];
        proof {
            assert(movegen::is_candidate(
                *tables,
                pos@,
                pos.state.active_player,
                legal_moves@[i as int].0,
                legal_moves@[i as int].1,
            ));
        }
        if pos.is_capture(&to) {
            proof {
                assert(movegen::spec_move_safe(
                    *tables,
                    pos@,
                    pos.state.active_player,
                    legal_moves@[i as int].0,
                    legal_moves@[i as int].1,
                ));
            }
            return false;
        }
        i = i + 1;
    }
    proof {
        // Every capture among the side's legal moves would be in the list.
        assert forall|f: u8, t2: u8|
            !(#[trigger] movegen::is_candidate(*tables, pos@, pos.state.active_player, f, t2)
                && movegen::spec_move_safe(*tables, pos@, pos.state.active_player, f, t2)
                && pos.spec_is_capture(t2)) by {
            if movegen::is_candidate(*tables, pos@, pos.state.active_player, f, t2)
                && movegen::spec_move_safe(*tables, pos@, pos.state.active_player, f, t2)
                && pos.spec_is_capture(t2) {
                assert(legal_moves@.contains((f, t2)));
                let j = choose|j: int| 0 <= j < legal_moves@.len() && legal_moves@[j] == (f, t2);
                assert(!pos.spec_is_capture(legal_moves@[j].1));
            }
        }
    }
    true
}

} // verus!
