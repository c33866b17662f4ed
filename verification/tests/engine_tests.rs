use amsel_chess_rust::bitboard::BitBoard;
use amsel_chess_rust::game;
use amsel_chess_rust::magics::AttackTables;
use amsel_chess_rust::movegen;
use amsel_chess_rust::position::Position;
use amsel_chess_rust::search;
use amsel_chess_rust::state::Color;
use amsel_chess_rust::util;
use amsel_chess_rust::piece::Piece;
use amsel_chess_rust::square::Square;

#[test]
fn pawn_attacks_a7_black() {
    let square_a7: u8 = 55;
    let attacks = movegen::pawn_attacks(square_a7, 1);
    assert_eq!(attacks, BitBoard::from_u64(70368744177664));
}

#[test]
fn pawn_attacks_e4_white() {
    let square_e4: u8 = 28;
    let attacks = movegen::pawn_attacks(square_e4, 0);
    assert_eq!(attacks, BitBoard::from_u64(171798691840));
}

#[test]
fn pawn_attacks_a7_white() {
    let square_a7: u8 = 55;
    let attacks = movegen::pawn_attacks(square_a7, 0);
    assert_eq!(attacks, BitBoard::from_u64(4611686018427387904));
}

#[test]
fn colorflip_ranks_1_2() {
    let bb = BitBoard::from_u64(65535);
    let flipped = bb.colorflip();
    assert_eq!(flipped, BitBoard::from_u64(18446462598732840960));
}

#[test]
fn colorflip_ranks_7_8() {
    let bb = BitBoard::from_u64(18446462598732840960);
    let flipped = bb.colorflip();
    assert_eq!(flipped, BitBoard::from_u64(65535));
}

#[test]
fn test_piece_at_for_empty() {
    let square = 16;
    let test_pos = Position::new();
    let piece = test_pos.piece_at(square);
    assert_eq!(piece, None);
}

#[test]
fn negate_min_int() {
    let min_int = i32::MIN + 1;
    assert_eq!(-min_int, i32::MAX);
}

#[test]
fn moves_rook_b1_initial() {
    let tables = AttackTables::new();
    let test_pos = Position::new();
    let square = 1;
    let moves = movegen::slider_moves(0, square, &test_pos, &tables);
    assert_eq!(moves, BitBoard::empty());
}

#[test]
fn moves_knight_b1_initial() {
    let test_pos = Position::new();
    let square = 1;
    let moves = movegen::get_knight_moves(square, &test_pos);
    assert_eq!(moves, BitBoard::from_u64(327680));
}

#[test]
fn moves_knight_b8_initial() {
    let test_pos = Position::new();
    let square = 57;
    let moves = movegen::get_knight_moves(square, &test_pos);
    assert_eq!(moves, BitBoard::from_u64(5497558138880));
}

#[test]
fn moves_bishop_c1_initial() {
    let tables = AttackTables::new();
    let test_pos = Position::new();
    let square = 2;
    let moves = movegen::slider_moves(2, square, &test_pos, &tables);
    assert_eq!(moves, BitBoard::empty());
}

#[test]
fn moves_queen_d1_initial() {
    let tables = AttackTables::new();
    let test_pos = Position::new();
    let square = 3;
    let moves = movegen::slider_moves(3, square, &test_pos, &tables);
    assert_eq!(moves, BitBoard::empty());
}

#[test]
fn moves_king_e1_initial() {
    let test_pos = Position::new();
    let square = 4;
    let moves = movegen::get_king_moves(square, &test_pos);
    assert_eq!(moves, BitBoard::empty());
}

#[test]
fn moves_pawn_f2_initial() {
    let test_pos = Position::new();
    let square = 13;
    let moves = movegen::get_pawn_moves(square, &test_pos);
    assert_eq!(moves, BitBoard::from_u64(538968064));
}

#[test]
fn moves_pawn_h7_initial() {
    let test_pos = Position::new();
    let square = 55;
    let moves = movegen::get_pawn_moves(square, &test_pos);
    assert_eq!(moves, BitBoard::from_u64(141287244169216));
}

// From the initial position, white has exactly twenty legal moves.
#[test]
fn initial_position_twenty_legal_moves() {
    let tables = AttackTables::new();
    let mut pos = Position::new();
    let moves = movegen::get_all_legal_moves_for_color(Color::White, &mut pos, &tables);
    assert_eq!(moves.len(), 20);
}

// From the initial position, the rook on a1 has no legal move and the
// knight on b1 has exactly the two jumps to a3 and c3.
#[test]
fn initial_position_rook_and_knight_moves() {
    let tables = AttackTables::new();
    let mut pos = Position::new();
    let moves = movegen::get_all_legal_moves_for_color(Color::White, &mut pos, &tables);
    let rook_moves: Vec<_> = moves.iter().filter(|m| m.0 == 0).collect();
    assert_eq!(rook_moves.len(), 0);
    let mut knight_moves: Vec<u8> = moves.iter().filter(|m| m.0 == 1).map(|m| m.1).collect();
    knight_moves.sort();
    assert_eq!(knight_moves, vec![16, 18]);
}

// The color occupancy always matches the piece occupancy, move after move.
#[test]
fn occupancy_stays_consistent() {
    let tables = AttackTables::new();
    let mut pos = Position::new();
    // 1. e4 e5 2. Nf3 Nc6
    for (from, to) in [(12u8, 28u8), (52, 36), (6, 21), (57, 42)] {
        game::make_player_move(&mut pos, from, to, &tables).unwrap();
        let colors = pos.color_bitboards[0].0 | pos.color_bitboards[1].0;
        let pieces = pos
            .piece_bitboards
            .iter()
            .fold(0u64, |acc, b| acc | b.0);
        assert_eq!(colors, pieces);
    }
}

// Applying a quiet move and then un-applying it restores the occupancy.
#[test]
fn quiet_move_round_trip() {
    let mut pos = Position::new();
    let colors_before: Vec<u64> = pos.color_bitboards.iter().map(|b| b.0).collect();
    let pieces_before: Vec<u64> = pos.piece_bitboards.iter().map(|b| b.0).collect();
    // The knight hops out and back.
    pos.make_move(&1, &18);
    pos.make_move(&18, &1);
    let colors_after: Vec<u64> = pos.color_bitboards.iter().map(|b| b.0).collect();
    let pieces_after: Vec<u64> = pos.piece_bitboards.iter().map(|b| b.0).collect();
    assert_eq!(colors_before, colors_after);
    assert_eq!(pieces_before, pieces_after);
}

// The rebuilt move tables hold, in every slot, the ray-move set of the
// occupancy that hashes there: the verified checker walks all of them.
#[test]
fn tables_pass_their_check() {
    let tables = AttackTables::new();
    assert!(tables.is_complete());
}

// The sliding lookup is a pure function: the same inputs give the same
// output on every call.
#[test]
fn sliding_attacks_pure() {
    let tables = AttackTables::new();
    let pos = Position::new();
    for square in [0u8, 3, 27, 63] {
        let first = movegen::pseudolegal_slider_moves(3, square, &pos, &tables);
        let second = movegen::pseudolegal_slider_moves(3, square, &pos, &tables);
        assert_eq!(first, second);
    }
}

// The fastest mate: after 1. f3 e5 2. g4 Qh4 the white king is checkmated,
// and the list of legal moves is empty.
#[test]
fn fools_mate_is_checkmate() {
    let tables = AttackTables::new();
    let mut pos = Position::new();
    game::make_player_move(&mut pos, 13, 21, &tables).unwrap();
    game::make_player_move(&mut pos, 52, 36, &tables).unwrap();
    game::make_player_move(&mut pos, 14, 30, &tables).unwrap();
    game::make_player_move(&mut pos, 59, 31, &tables).unwrap();
    assert!(pos.check);
    let moves = movegen::get_all_legal_moves_for_color(Color::White, &mut pos, &tables);
    assert!(moves.is_empty());
    assert!(game::is_in_checkmate(&mut pos, &tables));
}

// A cornered king with no move and no check is stalemate, not checkmate.
#[test]
fn stalemate_is_not_checkmate() {
    let tables = AttackTables::new();
    let mut pos = Position::new();
    // White king a6 and queen b6 corner the black king on a8.
    pos.color_bitboards[0] = BitBoard::from_u64((1 << 40) | (1 << 41));
    pos.color_bitboards[1] = BitBoard::from_u64(1 << 56);
    pos.piece_bitboards[0] = BitBoard::empty();
    pos.piece_bitboards[1] = BitBoard::empty();
    pos.piece_bitboards[2] = BitBoard::empty();
    pos.piece_bitboards[3] = BitBoard::from_u64(1 << 41);
    pos.piece_bitboards[4] = BitBoard::from_u64((1 << 40) | (1 << 56));
    pos.piece_bitboards[5] = BitBoard::empty();
    game::update_attackers(&mut pos, BitBoard::from_u64(u64::MAX), &tables);
    pos.state.active_player = Color::Black;
    pos.state.castling_rights.0 = 0;
    pos.check = false;
    let moves = movegen::get_all_legal_moves_for_color(Color::Black, &mut pos, &tables);
    assert!(moves.is_empty());
    assert!(!game::is_in_checkmate(&mut pos, &tables));
}

// With a mate in one on the board, the depth-one search plays it.
#[test]
fn search_finds_mate_in_one() {
    let tables = AttackTables::new();
    let mut pos = Position::new();
    game::make_player_move(&mut pos, 13, 21, &tables).unwrap();
    game::make_player_move(&mut pos, 52, 36, &tables).unwrap();
    game::make_player_move(&mut pos, 14, 30, &tables).unwrap();
    let best = search::find_best_move(&mut pos, 1, &tables);
    assert_eq!(best, (59, 31));
}

#[test]
fn parse_move_input() {
    assert_eq!(util::user_input_to_square_index("a2 a4"), Ok([8, 24]));
    assert_eq!(util::user_input_to_square_index(""), Ok([97, 97]));
    assert_eq!(util::user_input_to_square_index("legal"), Ok([98, 98]));
    assert!(util::user_input_to_square_index("i9 a4").is_err());
    assert!(util::user_input_to_square_index("a2a4").is_err());
}

#[test]
fn square_names() {
    assert_eq!(util::string_from_square(0), "A1");
    assert_eq!(util::string_from_square(63), "H8");
    assert_eq!(util::get_printable_square_from_index(&28), "e4");
}

#[test]
fn packed_piece_bits() {
    // A black queen that has moved: color bit, queen bit, moved bit.
    let piece = Piece(0b10010001);
    assert_eq!(piece.get_color(), Color::Black);
    assert_eq!(piece.get_piece_type(), 3);
    assert!(piece.has_moved());
    assert!(!piece.is_invalid());
    let none = Piece(0b10000001);
    assert!(none.is_invalid());
}

#[test]
fn square_offsets() {
    let e4 = Square::new(28);
    assert_eq!(e4.offset(1, 1), Some(Square::new(37)));
    let a1 = Square::new(0);
    assert_eq!(a1.offset(-1, 0), None);
    let h1 = Square::new(7);
    assert_eq!(h1.offset(1, 0), None);
}

// An en-passant capture removes the passed-over pawn, not the target square.
#[test]
fn en_passant_removes_passed_pawn() {
    let tables = AttackTables::new();
    let mut pos = Position::new();
    // 1. e4 a6 2. e5 d5 3. exd6
    game::make_player_move(&mut pos, 12, 28, &tables).unwrap();
    game::make_player_move(&mut pos, 48, 40, &tables).unwrap();
    game::make_player_move(&mut pos, 28, 36, &tables).unwrap();
    game::make_player_move(&mut pos, 51, 35, &tables).unwrap();
    assert_eq!(pos.en_passant_square, Some(43));
    game::make_player_move(&mut pos, 36, 43, &tables).unwrap();
    // The black pawn that pushed two squares is gone.
    assert_eq!(pos.piece_at(35), None);
}
