use vstd::prelude::*;

use crate::board::Board;
use crate::laws::{lemma_fits_in_range, lemma_targets_on_board};
use crate::piece::{Color, Piece, PieceType};
use crate::rules::{
    after_move, attack_targets, castle_targets, first_king, holds, in_check, is_enemy, keep_safe,
    pawn_advance_targets, pawn_attack_targets, pawn_capture_target, pawn_dir, pawn_move_targets,
    pawn_start_rank, pseudo_moves, ray_in_range, ray_targets, safe_moves, square_attacked,
    table_in_range, table_targets,
};
use crate::tables::{
    lemma_small_fits, lemma_tables_small, table_view, BISHOP_MOVES, KING_MOVES,
    KNIGHT_MOVES, QUEEN_MOVES, ROOK_MOVES,
};

verus! {

/// Appends to `mov` the squares that piece `p` on square `index` reaches along
/// each ray of `moves_pieces`, ray after ray and nearest square first.
pub fn helper_check_legal_move<const T: usize, const N: usize>(
    index: usize,
    board: Board,
    mov: Vec<usize>,
    moves_pieces: [[(isize, isize); T]; N],
    p: Piece,
) -> (r: Vec<usize>)
    requires
        table_in_range(board@.squares, (index % 8) as int, (index / 8) as int, table_view(moves_pieces)),
    ensures
        r@ == mov@ + table_targets(
            board@.squares,
            (index % 8) as int,
            (index / 8) as int,
            table_view(moves_pieces),
            p.color,
        ),
{
    let ghost squares = board@.squares;
    let ghost table = table_view(moves_pieces);
    let ghost start = mov@;
    let mut mov = mov;
    let file = (index % 8) as isize;
    let rank = (index / 8) as isize;
    assert(file == index % 8);
    assert(rank == index / 8);
    let mut j: usize = 0;
    while j < N
        invariant
            j <= N,
            file == index % 8,
            rank == index / 8,
            squares == board@.squares,
            table == table_view(moves_pieces),
            table_in_range(squares, file as int, rank as int, table),
            mov@ == start + table_targets(squares, file as int, rank as int, table.take(j as int), p.color),
        decreases N - j,
    {
        let directions = moves_pieces[j];
        let ghost row = directions@;
        assert(row == table[j as int]);
        assert(ray_in_range(squares, file as int, rank as int, table[j as int]));
        let ghost before = mov@;
        let ghost mut pre: Seq<usize> = Seq::empty();
        let mut k: usize = 0;
        let mut blocked = false;
        assert(row.skip(0) =~= row);
        while k < T && !blocked
            invariant
                k <= T,
                j < N,
                file == index % 8,
                rank == index / 8,
                squares == board@.squares,
                row == directions@,
                row == moves_pieces@[j as int]@,
                !blocked ==> ray_in_range(squares, file as int, rank as int, row.skip(k as int)),
                !blocked ==> mov@ == before + pre,
                !blocked ==> pre + ray_targets(squares, file as int, rank as int, row.skip(k as int), p.color)
                    == ray_targets(squares, file as int, rank as int, row, p.color),
                blocked ==> mov@ == before + ray_targets(squares, file as int, rank as int, row, p.color),
            decreases T - k,
        {
            let (df, dr) = directions[k];
            assert(row[k as int] == moves_pieces@[j as int]@[k as int]);
            let ghost rest = row.skip(k as int);
            assert(rest[0] == row[k as int]);
            assert(rest.drop_first() =~= row.skip(k + 1));
            let nf = file + df;
            let nr = rank + dr;
            if 0 <= nf && nf <= 7 && 0 <= nr && nr <= 7 {
                let n_idx = (nr * 8 + nf) as usize;
                match board.get(n_idx) {
                    Some(other) => {
                        if other.color != p.color {
                            mov.push(n_idx);
                        }
                        blocked = true;
                    },
                    None => {
                        mov.push(n_idx);
                        proof {
                            pre = pre.push(n_idx);
                            assert(pre + ray_targets(squares, file as int, rank as int, row.skip(k + 1), p.color)
                                =~= (pre.drop_last() + ray_targets(squares, file as int, rank as int, rest, p.color)));
                        }
                    },
                }
            }
            k += 1;
        }
        proof {
            if !blocked {
                assert(row.skip(k as int).len() == 0);
                assert(pre + ray_targets(squares, file as int, rank as int, row.skip(k as int), p.color) =~= pre);
            }
            assert(table.take(j + 1).drop_last() =~= table.take(j as int));
            assert(table.take(j + 1).last() == row);
        }
        j += 1;
    }
    assert(table.take(N as int) =~= table);
    mov
}

/// The file and rank of `index` as signed numbers.
fn file_rank(index: usize) -> (r: (isize, isize))
    ensures
        r.0 == index % 8,
        r.1 == index / 8,
        r.1 + 8 <= isize::MAX,
{
    assert(index / 8 + 8 <= isize::MAX) by {
        assert(usize::MAX == 0xffff_ffff || usize::MAX == 0xffff_ffff_ffff_ffff);
        assert(usize::MAX == 0xffff_ffff ==> isize::MAX == 0x7fff_ffff);
        assert(usize::MAX == 0xffff_ffff_ffff_ffff ==> isize::MAX == 0x7fff_ffff_ffff_ffff);
    }
    ((index % 8) as isize, (index / 8) as isize)
}

/// Appends to `mov` the advances of a pawn of `color` on (file, rank).
fn pawn_advances(file: isize, rank: isize, board: &Board, mov: &mut Vec<usize>, color: Color)
    requires
        0 <= file <= 7,
        0 <= rank,
        rank + 2 <= isize::MAX,
    ensures
        final(mov)@ == old(mov)@ + pawn_advance_targets(board@.squares, file as int, rank as int, color),
{
    let ghost start = mov@;
    let (dir, starting_rank): (isize, isize) = match color {
        Color::White => (-1, 6),
        Color::Black => (1, 1),
    };
    assert(dir == pawn_dir(color) && starting_rank == pawn_start_rank(color));
    let nr = rank + dir;
    if 0 <= nr && nr <= 7 {
        let one_ahead = (nr * 8 + file) as usize;
        if board.get(one_ahead).is_none() {
            mov.push(one_ahead);
            if rank == starting_rank {
                let nr2 = rank + 2 * dir;
                if 0 <= nr2 && nr2 <= 7 {
                    let two_ahead = (nr2 * 8 + file) as usize;
                    if board.get(two_ahead).is_none() {
                        mov.push(two_ahead);
                    }
                }
            }
        }
    }
    assert(mov@ =~= start + pawn_advance_targets(board@.squares, file as int, rank as int, color));
}

/// Appends to `mov` the forward diagonal square `side` files away when it
/// holds an enemy of a pawn of `color` on (file, rank).
fn pawn_capture(file: isize, rank: isize, board: &Board, mov: &mut Vec<usize>, color: Color, side: isize)
    requires
        0 <= file <= 7,
        0 <= rank,
        rank + 1 <= isize::MAX,
        side == -1 || side == 1,
    ensures
        final(mov)@ == old(mov)@ + pawn_capture_target(board@.squares, file as int, rank as int, color, side as int),
{
    let ghost start = mov@;
    let dir: isize = match color {
        Color::White => -1,
        Color::Black => 1,
    };
    let nr = rank + dir;
    let nf = file + side;
    if 0 <= nr && nr <= 7 && 0 <= nf && nf <= 7 {
        let diag = (nr * 8 + nf) as usize;
        if let Some(other_p) = board.get(diag) {
            if other_p.color != color {
                mov.push(diag);
            }
        }
    }
    assert(mov@ =~= start + pawn_capture_target(board@.squares, file as int, rank as int, color, side as int));
}

/// Appends to `mov` the moves of pawn `p` standing on square `index`: one square
/// ahead if empty, then two ahead from the start rank if that is empty too, then
/// the forward diagonals (left, then right) that hold an enemy piece.
pub fn pawn_moves(index: usize, board: Board, mov: Vec<usize>, p: Piece) -> (r: Vec<usize>)
    ensures
        r@ == mov@ + pawn_move_targets(board@.squares, index as int, p.color),
{
    let ghost start = mov@;
    let mut mov = mov;
    let (file, rank) = file_rank(index);
    pawn_advances(file, rank, &board, &mut mov, p.color);
    pawn_capture(file, rank, &board, &mut mov, p.color, -1);
    pawn_capture(file, rank, &board, &mut mov, p.color, 1);
    assert(mov@ =~= start + pawn_move_targets(board@.squares, index as int, p.color));
    mov
}

/// Appends to `mov` the squares attacked by pawn `p` on square `index`: the
/// forward diagonals (left, then right) that lie on the board.
pub fn pawn_attacks(index: usize, mov: Vec<usize>, p: Piece) -> (r: Vec<usize>)
    ensures
        r@ == mov@ + pawn_attack_targets(index as int, p.color),
{
    let ghost start = mov@;
    let mut mov = mov;
    let (file, rank) = file_rank(index);
    let dir: isize = match p.color {
        Color::White => -1,
        Color::Black => 1,
    };
    let nr = rank + dir;
    if !(0 <= nr && nr <= 7) {
        assert(mov@ =~= start + pawn_attack_targets(index as int, p.color));
        return mov;
    }
    if file > 0 {
        let left = (nr * 8 + (file - 1)) as usize;
        mov.push(left);
    }
    if file < 7 {
        let right = (nr * 8 + (file + 1)) as usize;
        mov.push(right);
    }
    assert(mov@ =~= start + pawn_attack_targets(index as int, p.color));
    mov
}

/// The squares attacked by the piece on square `index`; empty for an empty square.
pub fn attacks_from(index: usize, board: Board) -> (r: Vec<usize>)
    requires
        index < 64,
    ensures
        r@ == attack_targets(board@.squares, index as int),
{
    let mut mov: Vec<usize> = Vec::new();
    proof {
        lemma_tables_small();
        lemma_small_fits(KNIGHT_MOVES, index);
        lemma_fits_in_range(board@.squares, KNIGHT_MOVES, index);
        lemma_small_fits(KING_MOVES, index);
        lemma_fits_in_range(board@.squares, KING_MOVES, index);
        lemma_small_fits(ROOK_MOVES, index);
        lemma_fits_in_range(board@.squares, ROOK_MOVES, index);
        lemma_small_fits(BISHOP_MOVES, index);
        lemma_fits_in_range(board@.squares, BISHOP_MOVES, index);
        lemma_small_fits(QUEEN_MOVES, index);
        lemma_fits_in_range(board@.squares, QUEEN_MOVES, index);
    }
    if let Some(p) = board.get(index) {
        mov = match p.kind {
            PieceType::Knight => helper_check_legal_move(index, board, mov, KNIGHT_MOVES, p),
            PieceType::King => helper_check_legal_move(index, board, mov, KING_MOVES, p),
            PieceType::Rook => helper_check_legal_move(index, board, mov, ROOK_MOVES, p),
            PieceType::Bishop => helper_check_legal_move(index, board, mov, BISHOP_MOVES, p),
            PieceType::Queen => helper_check_legal_move(index, board, mov, QUEEN_MOVES, p),
            PieceType::Pawn => pawn_attacks(index, mov, p),
        };
    }
    assert(mov@ =~= attack_targets(board@.squares, index as int));
    mov
}

/// `v` holds `x`.
pub(crate) fn contains_square(v: &Vec<usize>, x: usize) -> (r: bool)
    ensures
        r == v@.contains(x),
{
    let mut k: usize = 0;
    while k < v.len()
        invariant
            k <= v.len(),
            forall|m: int| 0 <= m < k ==> v@[m] != x,
        decreases v.len() - k,
    {
        if v[k] == x {
            return true;
        }
        k += 1;
    }
    false
}

/// The square holds exactly the piece of `kind` and `color`.
fn holds_piece(square: Option<Piece>, kind: PieceType, color: Color) -> (r: bool)
    ensures
        r == holds(square, kind, color),
{
    match square {
        Some(p) => p.kind == kind && p.color == color,
        None => false,
    }
}

/// Some piece of the side other than `color` attacks square `index`.
pub fn is_case_attack(index: usize, board: Board, color: Color) -> (r: bool)
    ensures
        r == square_attacked(board@.squares, index, color),
{
    let ghost sq = board@.squares;
    let mut i: usize = 0;
    while i < 64
        invariant
            i <= 64,
            sq == board@.squares,
            forall|j: int|
                0 <= j < i ==> !(is_enemy(sq[j], color) && #[trigger] attack_targets(sq, j).contains(
                    index,
                )),
        decreases 64 - i,
    {
        if let Some(piece) = board.get(i) {
            if piece.color != color {
                let att = attacks_from(i, board);
                if contains_square(&att, index) {
                    return true;
                }
            }
        }
        i += 1;
    }
    false
}

/// The first king of `color` on the board (in square order) is attacked; false
/// when `color` has no king.
pub fn is_in_check(board: Board, color: Color) -> (r: bool)
    ensures
        r == in_check(board@.squares, color),
{
    let ghost sq = board@.squares;
    let mut i: usize = 0;
    while i < 64
        invariant
            i <= 64,
            sq == board@.squares,
            forall|j: int| 0 <= j < i ==> !holds(#[trigger] sq[j], PieceType::King, color),
        decreases 64 - i,
    {
        if let Some(piece) = board.get(i) {
            if piece.kind == PieceType::King && piece.color == color {
                assert(first_king(sq, color, i as int));
                return is_case_attack(i, board, color);
            }
        }
        i += 1;
    }
    false
}

/// The pseudo-legal moves of the piece on square `index`, its own king's
/// safety not considered; castling is given as the king moving to its rook's
/// square.
pub fn check_legal_move(board: Board, index: usize) -> (r: Vec<usize>)
    requires
        index < 64,
    ensures
        r@ == pseudo_moves(board@, index as int),
{
    let mut mov: Vec<usize> = Vec::new();
    proof {
        lemma_tables_small();
        lemma_small_fits(KNIGHT_MOVES, index);
        lemma_fits_in_range(board@.squares, KNIGHT_MOVES, index);
        lemma_small_fits(KING_MOVES, index);
        lemma_fits_in_range(board@.squares, KING_MOVES, index);
        lemma_small_fits(ROOK_MOVES, index);
        lemma_fits_in_range(board@.squares, ROOK_MOVES, index);
        lemma_small_fits(BISHOP_MOVES, index);
        lemma_fits_in_range(board@.squares, BISHOP_MOVES, index);
        lemma_small_fits(QUEEN_MOVES, index);
        lemma_fits_in_range(board@.squares, QUEEN_MOVES, index);
    }
    if let Some(p) = board.get(index) {
        mov = match p.kind {
            PieceType::Knight => helper_check_legal_move(index, board, mov, KNIGHT_MOVES, p),
            PieceType::King => {
                let m = helper_check_legal_move(index, board, mov, KING_MOVES, p);
                let c = castle_moves(board, index, p.color);
                let mut m = m;
                let mut c = c;
                m.append(&mut c);
                m
            },
            PieceType::Rook => helper_check_legal_move(index, board, mov, ROOK_MOVES, p),
            PieceType::Bishop => helper_check_legal_move(index, board, mov, BISHOP_MOVES, p),
            PieceType::Queen => helper_check_legal_move(index, board, mov, QUEEN_MOVES, p),
            PieceType::Pawn => pawn_moves(index, board, mov, p),
        };
    }
    assert(mov@ =~= pseudo_moves(board@, index as int));
    mov
}

/// The castling targets of a king of `color` on square `index`.
fn castle_moves(board: Board, index: usize, color: Color) -> (r: Vec<usize>)
    ensures
        r@ == castle_targets(board@, index as int, color),
{
    let mut m: Vec<usize> = Vec::new();
    if color == Color::White && index == 60 {
        if board.can_rook_white_small && board.square[61].is_none() && board.square[62].is_none()
            && !is_case_attack(61, board, Color::White) && !is_case_attack(62, board, Color::White)
            && holds_piece(board.square[63], PieceType::Rook, Color::White) {
            m.push(63);
        }
        if board.can_rook_white_big && board.square[59].is_none() && board.square[58].is_none()
            && board.square[57].is_none() && !is_case_attack(60, board, Color::White)
            && !is_case_attack(59, board, Color::White) && !is_case_attack(58, board, Color::White)
            && holds_piece(board.square[56], PieceType::Rook, Color::White) {
            m.push(56);
        }
    }
    if color == Color::Black && index == 4 {
        if board.can_rook_black_small && board.square[5].is_none() && board.square[6].is_none()
            && !is_case_attack(5, board, Color::Black) && !is_case_attack(6, board, Color::Black)
            && holds_piece(board.square[7], PieceType::Rook, Color::Black) {
            m.push(7);
        }
        if board.can_rook_black_big && board.square[3].is_none() && board.square[2].is_none()
            && board.square[1].is_none() && !is_case_attack(4, board, Color::Black)
            && !is_case_attack(3, board, Color::Black) && !is_case_attack(2, board, Color::Black)
            && holds_piece(board.square[0], PieceType::Rook, Color::Black) {
            m.push(0);
        }
    }
    assert(m@ =~= castle_targets(board@, index as int, color));
    m
}

/// The legal moves of the piece on square `index`: those of its pseudo-legal
/// moves after which its own king is not in check; empty for an empty square.
pub fn save_king(board: Board, index: usize) -> (r: Vec<usize>)
    requires
        index < 64,
    ensures
        r@ == safe_moves(board@, index as int),
{
    let pseudo: Vec<usize> = check_legal_move(board, index);
    let mut legal: Vec<usize> = Vec::new();
    let me = match board.get(index) {
        Some(p) => p.color,
        None => return legal,
    };
    let ghost sq = board@.squares;
    proof {
        lemma_targets_on_board(board@, index as int);
    }
    let mut k: usize = 0;
    while k < pseudo.len()
        invariant
            k <= pseudo.len(),
            index < 64,
            sq == board@.squares,
            pseudo@ == pseudo_moves(board@, index as int),
            forall|t: usize| pseudo@.contains(t) ==> t < 64,
            legal@ == keep_safe(sq, index as int, me, pseudo@.take(k as int)),
        decreases pseudo.len() - k,
    {
        let to = pseudo[k];
        assert(pseudo@.contains(to));
        let mut tmp: Board = board;
        tmp.square[to] = tmp.square[index];
        tmp.square[index] = None;
        assert(tmp@.squares =~= after_move(sq, index as int, to as int));
        if !is_in_check(tmp, me) {
            legal.push(to);
        }
        assert(pseudo@.take(k + 1).drop_last() =~= pseudo@.take(k as int));
        k += 1;
    }
    assert(pseudo@.take(pseudo.len() as int) =~= pseudo@);
    legal
}

} // verus!
