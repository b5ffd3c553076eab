use chess::board::Board;
use chess::fen::{fen_to_board, try_fen_to_board};
use chess::game::Game;
use chess::moves::{
    attacks_from, check_legal_move, helper_check_legal_move, is_case_attack, is_in_check,
    pawn_attacks, pawn_moves, save_king,
};
use chess::piece::{Color, Piece, PieceType};
use chess::tables::{BISHOP_MOVES, KNIGHT_MOVES, QUEEN_MOVES, ROOK_MOVES};

const START: &str = "rnbqkbnr/pppppppp/8/8/8/8/PPPPPPPP/RNBQKBNR w KQkq - 0 1";

fn piece(kind: PieceType, color: Color) -> Piece {
    Piece { kind, color }
}

fn start_board() -> Board {
    fen_to_board(Board::new(), START.to_string())
}

fn board_with(pieces: &[(usize, PieceType, Color)]) -> Board {
    let mut b = Board::new();
    for &(i, k, c) in pieces {
        b.set(i, piece(k, c));
    }
    b
}

#[test]
fn new_board_is_empty() {
    let b = Board::new();
    for i in 0..64 {
        assert_eq!(b.get(i), None);
    }
    assert!(b.white_play);
    assert!(!b.black_play);
    assert!(b.can_rook_white_small && b.can_rook_white_big);
    assert!(b.can_rook_black_small && b.can_rook_black_big);
    assert_eq!(b.number_of_half_moves, 0);
    assert_eq!(b.number_of_moves, 1);
}

#[test]
fn get_after_set() {
    let mut b = Board::new();
    b.set(27, piece(PieceType::Queen, Color::Black));
    assert_eq!(b.get(27), Some(piece(PieceType::Queen, Color::Black)));
    assert_eq!(b.get(28), None);
    b.set(27, piece(PieceType::Pawn, Color::White));
    assert_eq!(b.get(27), Some(piece(PieceType::Pawn, Color::White)));
}

#[test]
fn fen_start_position() {
    let b = start_board();
    assert_eq!(b.get(0), Some(piece(PieceType::Rook, Color::Black)));
    assert_eq!(b.get(1), Some(piece(PieceType::Knight, Color::Black)));
    assert_eq!(b.get(3), Some(piece(PieceType::Queen, Color::Black)));
    assert_eq!(b.get(4), Some(piece(PieceType::King, Color::Black)));
    assert_eq!(b.get(8), Some(piece(PieceType::Pawn, Color::Black)));
    assert_eq!(b.get(52), Some(piece(PieceType::Pawn, Color::White)));
    assert_eq!(b.get(60), Some(piece(PieceType::King, Color::White)));
    assert_eq!(b.get(63), Some(piece(PieceType::Rook, Color::White)));
    for i in 16..48 {
        assert_eq!(b.get(i), None);
    }
    assert!(b.white_play && !b.black_play);
    assert!(b.can_rook_white_small && b.can_rook_white_big);
    assert!(b.can_rook_black_small && b.can_rook_black_big);
    // each counter takes the character code of its field
    assert_eq!(b.number_of_half_moves, '0' as u64);
    assert_eq!(b.number_of_moves, '1' as u64);
}

#[test]
fn fen_side_rights_and_counters() {
    let b = fen_to_board(Board::new(), "8/8/8/8/8/8/8/8 b Kq - 5 Z".to_string());
    assert!(b.black_play && !b.white_play);
    assert!(b.can_rook_white_small && !b.can_rook_white_big);
    assert!(!b.can_rook_black_small && b.can_rook_black_big);
    assert_eq!(b.number_of_half_moves, '5' as u64);
    assert_eq!(b.number_of_moves, 'z' as u64);
}

#[test]
fn fen_keeps_unnamed_squares() {
    let mut b = Board::new();
    b.set(63, piece(PieceType::Queen, Color::Black));
    let r = fen_to_board(b, "k7".to_string());
    assert_eq!(r.get(0), Some(piece(PieceType::King, Color::Black)));
    assert_eq!(r.get(63), Some(piece(PieceType::Queen, Color::Black)));
    assert!(!r.can_rook_white_small && !r.can_rook_black_big);
}

#[test]
fn fen_refuses_out_of_range() {
    let too_many = "p".repeat(65);
    assert!(try_fen_to_board(Board::new(), too_many).is_none());
    let skip_too_far = "9".repeat(29);
    assert!(try_fen_to_board(Board::new(), skip_too_far).is_none());
    let late_piece = "88888888K".to_string();
    assert!(try_fen_to_board(Board::new(), late_piece).is_none());
    assert!(try_fen_to_board(Board::new(), START.to_string()).is_some());
}

#[test]
fn knight_moves_from_start() {
    let b = start_board();
    assert_eq!(check_legal_move(b, 57), vec![40, 42]);
    assert_eq!(save_king(b, 57), vec![40, 42]);
}

#[test]
fn pawn_advances_from_start() {
    let b = start_board();
    assert_eq!(check_legal_move(b, 52), vec![44, 36]);
    assert_eq!(check_legal_move(b, 12), vec![20, 28]);
}

#[test]
fn pawn_blocked_and_captures() {
    let b = board_with(&[
        (36, PieceType::Pawn, Color::White),
        (28, PieceType::Pawn, Color::Black),
        (27, PieceType::Knight, Color::Black),
        (29, PieceType::Knight, Color::White),
    ]);
    // blocked ahead, captures the black knight only
    assert_eq!(pawn_moves(36, b, vec![], piece(PieceType::Pawn, Color::White)), vec![27]);
    assert_eq!(pawn_moves(36, b, vec![7], piece(PieceType::Pawn, Color::White)), vec![7, 27]);
}

#[test]
fn pawn_attack_squares() {
    assert_eq!(pawn_attacks(8, vec![], piece(PieceType::Pawn, Color::Black)), vec![17]);
    assert_eq!(pawn_attacks(52, vec![], piece(PieceType::Pawn, Color::White)), vec![43, 45]);
    assert_eq!(pawn_attacks(4, vec![], piece(PieceType::Pawn, Color::White)), Vec::<usize>::new());
    let b = board_with(&[(52, PieceType::Pawn, Color::White)]);
    assert_eq!(attacks_from(52, b), vec![43, 45]);
}

#[test]
fn slider_stops_at_blockers() {
    let b = board_with(&[
        (0, PieceType::Rook, Color::White),
        (2, PieceType::Knight, Color::White),
        (24, PieceType::Pawn, Color::Black),
    ]);
    assert_eq!(
        helper_check_legal_move(0, b, vec![], ROOK_MOVES, piece(PieceType::Rook, Color::White)),
        vec![1, 8, 16, 24]
    );
    assert_eq!(check_legal_move(b, 0), vec![1, 8, 16, 24]);
}

#[test]
fn empty_square_has_nothing() {
    let b = start_board();
    assert!(check_legal_move(b, 35).is_empty());
    assert!(save_king(b, 35).is_empty());
    assert!(attacks_from(35, b).is_empty());
}

#[test]
fn moves_match_attacks_for_queen() {
    let b = board_with(&[
        (27, PieceType::Queen, Color::White),
        (30, PieceType::Pawn, Color::Black),
        (11, PieceType::Bishop, Color::White),
    ]);
    let moves = check_legal_move(b, 27);
    assert_eq!(moves, attacks_from(27, b));
    assert!(moves.contains(&30));
    assert!(!moves.contains(&31));
    assert!(!moves.contains(&11));
    assert!(moves.contains(&19));
    assert_eq!(
        moves,
        helper_check_legal_move(27, b, vec![], QUEEN_MOVES, piece(PieceType::Queen, Color::White))
    );
}

#[test]
fn bishop_and_knight_tables() {
    let b = board_with(&[(63, PieceType::Bishop, Color::Black)]);
    assert_eq!(
        helper_check_legal_move(63, b, vec![], BISHOP_MOVES, piece(PieceType::Bishop, Color::Black)),
        vec![54, 45, 36, 27, 18, 9, 0]
    );
    let b = board_with(&[(0, PieceType::Knight, Color::Black)]);
    assert_eq!(
        helper_check_legal_move(0, b, vec![], KNIGHT_MOVES, piece(PieceType::Knight, Color::Black)),
        vec![17, 10]
    );
}

#[test]
fn no_move_onto_own_piece_from_start() {
    let b = start_board();
    for i in 0..64 {
        if let Some(p) = b.get(i) {
            for t in check_legal_move(b, i) {
                assert!(t < 64);
                if let Some(q) = b.get(t) {
                    assert_ne!(q.color, p.color);
                }
            }
        }
    }
}

#[test]
fn king_moves_and_short_castle() {
    let b = board_with(&[
        (60, PieceType::King, Color::White),
        (63, PieceType::Rook, Color::White),
    ]);
    assert_eq!(check_legal_move(b, 60), vec![51, 59, 52, 53, 61, 63]);
    let mut no_right = b;
    no_right.can_rook_white_small = false;
    assert_eq!(check_legal_move(no_right, 60), vec![51, 59, 52, 53, 61]);
}

#[test]
fn castle_refused_through_attack() {
    let b = board_with(&[
        (60, PieceType::King, Color::White),
        (63, PieceType::Rook, Color::White),
        (5, PieceType::Rook, Color::Black),
    ]);
    assert!(is_case_attack(61, b, Color::White));
    assert!(!check_legal_move(b, 60).contains(&63));
}

#[test]
fn black_long_castle() {
    let b = board_with(&[
        (4, PieceType::King, Color::Black),
        (0, PieceType::Rook, Color::Black),
    ]);
    assert_eq!(check_legal_move(b, 4), vec![3, 11, 12, 5, 13, 0]);
}

#[test]
fn check_and_legal_king_moves() {
    let b = board_with(&[
        (60, PieceType::King, Color::White),
        (4, PieceType::Rook, Color::Black),
    ]);
    assert!(is_in_check(b, Color::White));
    assert!(!is_in_check(b, Color::Black));
    assert_eq!(check_legal_move(b, 60), vec![51, 59, 52, 53, 61]);
    assert_eq!(save_king(b, 60), vec![51, 59, 53, 61]);
}

#[test]
fn pinned_piece_cannot_leave() {
    let b = board_with(&[
        (60, PieceType::King, Color::White),
        (52, PieceType::Knight, Color::White),
        (4, PieceType::Rook, Color::Black),
    ]);
    assert!(!check_legal_move(b, 52).is_empty());
    assert!(save_king(b, 52).is_empty());
}

#[test]
fn no_king_no_check() {
    let b = board_with(&[(4, PieceType::Rook, Color::Black)]);
    assert!(!is_in_check(b, Color::White));
}

#[test]
fn attack_detection() {
    let b = start_board();
    assert!(is_case_attack(42, b, Color::Black));
    assert!(!is_case_attack(35, b, Color::Black));
    assert!(is_case_attack(20, b, Color::White));
}

#[test]
fn game_select_and_move() {
    let mut g = Game::new(start_board());
    g.click(52);
    assert_eq!(g.selected, Some(52));
    assert_eq!(g.move_pieces, Some(vec![44, 36]));
    g.click(36);
    assert_eq!(g.board.get(36), Some(piece(PieceType::Pawn, Color::White)));
    assert_eq!(g.board.get(52), None);
    assert_eq!(g.selected, None);
    assert_eq!(g.move_pieces, None);
    assert_eq!(g.board.number_of_half_moves, '0' as u64 + 1);
    g.update_turn();
    assert_eq!(g.who_play, Color::Black);
}

#[test]
fn game_ignores_other_side() {
    let mut g = Game::new(start_board());
    g.click(12);
    assert_eq!(g.selected, None);
    assert_eq!(g.move_pieces, None);
    g.click(35);
    assert_eq!(g.selected, None);
}

#[test]
fn game_refused_move_keeps_board() {
    let mut g = Game::new(start_board());
    g.click(52);
    let before = g.board.square;
    g.click(20);
    assert_eq!(g.board.square, before);
    assert_eq!(g.selected, Some(52));
    assert_eq!(g.move_pieces, Some(vec![44, 36]));
    assert_eq!(g.board.number_of_half_moves, '0' as u64 + 1);
}

#[test]
fn game_reselect_cancels() {
    let mut g = Game::new(start_board());
    g.click(57);
    g.click(57);
    assert_eq!(g.selected, None);
    assert_eq!(g.move_pieces, None);
    assert_eq!(g.board.number_of_half_moves, '0' as u64);
}

#[test]
fn game_castles_short() {
    let b = board_with(&[
        (60, PieceType::King, Color::White),
        (63, PieceType::Rook, Color::White),
        (4, PieceType::King, Color::Black),
    ]);
    let mut g = Game::new(b);
    g.click(60);
    g.click(63);
    assert_eq!(g.board.get(62), Some(piece(PieceType::King, Color::White)));
    assert_eq!(g.board.get(61), Some(piece(PieceType::Rook, Color::White)));
    assert_eq!(g.board.get(63), None);
    assert_eq!(g.board.get(60), None);
    assert!(!g.board.can_rook_white_small && !g.board.can_rook_white_big);
    assert!(g.board.can_rook_black_small);
}

#[test]
fn rook_leaving_corner_drops_right() {
    let b = board_with(&[
        (60, PieceType::King, Color::White),
        (56, PieceType::Rook, Color::White),
    ]);
    let mut g = Game::new(b);
    g.click(56);
    g.click(48);
    assert_eq!(g.board.get(48), Some(piece(PieceType::Rook, Color::White)));
    assert!(!g.board.can_rook_white_big);
    assert!(g.board.can_rook_white_small);
}

#[test]
fn turn_follows_parity() {
    let mut g = Game::new(Board::new());
    g.update_turn();
    assert_eq!(g.who_play, Color::White);
    g.board.number_of_half_moves = 3;
    g.update_turn();
    assert_eq!(g.who_play, Color::Black);
    g.board.number_of_half_moves = 4;
    g.update_turn();
    assert_eq!(g.who_play, Color::White);
    assert_eq!(g.board.number_of_moves, 2);
}

#[test]
fn long_castle_allows_attacked_rook_side() {
    let b = board_with(&[
        (60, PieceType::King, Color::White),
        (56, PieceType::Rook, Color::White),
        (1, PieceType::Rook, Color::Black),
    ]);
    assert!(is_case_attack(57, b, Color::White));
    assert!(check_legal_move(b, 60).contains(&56));
}

#[test]
fn white_cannot_castle_long_out_of_check() {
    let b = board_with(&[
        (60, PieceType::King, Color::White),
        (56, PieceType::Rook, Color::White),
        (4, PieceType::Rook, Color::Black),
    ]);
    assert!(is_in_check(b, Color::White));
    assert_eq!(check_legal_move(b, 60), vec![51, 59, 52, 53, 61]);
    assert!(!save_king(b, 60).contains(&56));
}

#[test]
fn black_cannot_castle_long_out_of_check() {
    let b = board_with(&[
        (4, PieceType::King, Color::Black),
        (0, PieceType::Rook, Color::Black),
        (60, PieceType::Rook, Color::White),
    ]);
    assert!(is_in_check(b, Color::Black));
    assert!(!check_legal_move(b, 4).contains(&0));
}

#[test]
fn moves_have_no_duplicates_nor_origin() {
    let positions = [
        START,
        "r3k2r/pppq1ppp/2n2n2/3pp3/1b1PP1b1/2N2N2/PPPQ1PPP/R3K2R w KQkq - 0 1",
    ];
    for fen in positions {
        let b = fen_to_board(Board::new(), fen.to_string());
        for i in 0..64 {
            let moves = check_legal_move(b, i);
            assert!(!moves.contains(&i));
            for (a, x) in moves.iter().enumerate() {
                for y in moves.iter().skip(a + 1) {
                    assert_ne!(x, y);
                }
            }
        }
    }
}

#[test]
fn table_moves_are_offsets_of_entries() {
    let b = board_with(&[(27, PieceType::Queen, Color::White), (45, PieceType::Pawn, Color::White)]);
    let before = vec![99, 98];
    let r = helper_check_legal_move(27, b, before.clone(), QUEEN_MOVES, piece(PieceType::Queen, Color::White));
    assert_eq!(&r[..2], &before[..]);
    assert!(r.len() <= 2 + 8 * 7);
    for &t in &r[2..] {
        assert!(t < 64);
        let df = (t % 8) as isize - 3;
        let dr = (t / 8) as isize - 3;
        assert!(QUEEN_MOVES.iter().any(|row| row.contains(&(df, dr))));
        assert_ne!(t, 45);
    }
    assert!(r.contains(&36));
    assert!(!r.contains(&54));
}

#[test]
fn fen_counters_follow_last_character() {
    let b = fen_to_board(Board::new(), "8/8/8/8/8/8/8/8 w - - 13 27".to_string());
    assert_eq!(b.number_of_half_moves, '3' as u64);
    assert_eq!(b.number_of_half_moves % 2, 1);
    assert_eq!(b.number_of_moves, '7' as u64);
    let b = fen_to_board(Board::new(), "8/8/8/8/8/8/8/8 b KQkq -".to_string());
    assert_eq!(b.number_of_half_moves, 0);
    assert_eq!(b.number_of_moves, 1);
    assert!(b.can_rook_white_small && b.can_rook_white_big && b.can_rook_black_small && b.can_rook_black_big);
}
