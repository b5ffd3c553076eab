use vstd::prelude::*;

use crate::board::BoardView;
use crate::piece::{Color, Piece, PieceType};
use crate::tables::{
    table_view, BISHOP_MOVES, KING_MOVES, KNIGHT_MOVES, QUEEN_MOVES, ROOK_MOVES,
};

verus! {

/// (file, rank) lies on the 8x8 board.
pub open spec fn on_board(file: int, rank: int) -> bool {
    0 <= file <= 7 && 0 <= rank <= 7
}

/// The squares a piece of `color` standing on (file, rank) reaches along one
/// ray of offsets: offsets that leave the board are passed over, an empty
/// square is reached and the ray goes on, an enemy piece is reached and ends
/// the ray, a piece of `color` ends the ray without being reached.
pub open spec fn ray_targets(
    squares: Seq<Option<Piece>>,
    file: int,
    rank: int,
    row: Seq<(isize, isize)>,
    color: Color,
) -> Seq<usize>
    decreases row.len(),
{
    if row.len() == 0 {
        Seq::empty()
    } else {
        let nf = file + row[0].0;
        let nr = rank + row[0].1;
        let rest = ray_targets(squares, file, rank, row.drop_first(), color);
        if !on_board(nf, nr) {
            rest
        } else {
            let t = nr * 8 + nf;
            match squares[t] {
                None => seq![t as usize] + rest,
                Some(other) => if other.color != color {
                    seq![t as usize]
                } else {
                    Seq::empty()
                },
            }
        }
    }
}

/// The index of the square `d` = (file step, rank step) away from (file, rank).
pub open spec fn offset_square(file: int, rank: int, d: (isize, isize)) -> int {
    (rank + d.1) * 8 + file + d.0
}

/// The square `d` away from (file, rank) lies on the board.
pub open spec fn offset_on_board(file: int, rank: int, d: (isize, isize)) -> bool {
    on_board(file + d.0, rank + d.1)
}

/// Entry `k` of a ray is reached by a piece of `color` on (file, rank): its
/// square is on the board, every on-board square named before it in the ray is
/// empty, and its own square is empty or holds an enemy.
pub open spec fn entry_reached(
    squares: Seq<Option<Piece>>,
    file: int,
    rank: int,
    row: Seq<(isize, isize)>,
    k: int,
    color: Color,
) -> bool {
    &&& 0 <= k < row.len()
    &&& offset_on_board(file, rank, row[k])
    &&& forall|k2: int|
        0 <= k2 < k && offset_on_board(file, rank, #[trigger] row[k2]) ==> squares[offset_square(
            file,
            rank,
            row[k2],
        )] is None
    &&& (squares[offset_square(file, rank, row[k])] is None || is_enemy(
        squares[offset_square(file, rank, row[k])],
        color,
    ))
}

/// `res` lists, in table order (ray after ray, entry after entry), the squares
/// of exactly the reached entries of `table`; `idx[m]` = (ray, entry) gives the
/// entry behind `res[m]`.
pub open spec fn enumerates_reached(
    squares: Seq<Option<Piece>>,
    file: int,
    rank: int,
    table: Seq<Seq<(isize, isize)>>,
    color: Color,
    res: Seq<usize>,
    idx: Seq<(int, int)>,
) -> bool {
    &&& idx.len() == res.len()
    &&& forall|m: int|
        0 <= m < idx.len() ==> {
            &&& 0 <= (#[trigger] idx[m]).0 < table.len()
            &&& entry_reached(squares, file, rank, table[idx[m].0], idx[m].1, color)
            &&& res[m] as int == offset_square(file, rank, table[idx[m].0][idx[m].1])
        }
    &&& forall|m1: int, m2: int|
        0 <= m1 < m2 < idx.len() ==> (#[trigger] idx[m1]).0 < (#[trigger] idx[m2]).0 || (idx[m1].0
            == idx[m2].0 && idx[m1].1 < idx[m2].1)
    &&& forall|j: int, k: int|
        0 <= j < table.len() && #[trigger] entry_reached(squares, file, rank, table[j], k, color)
            ==> idx.contains((j, k))
}

/// Walking a ray as `ray_targets` does, every square offset computed (up to
/// and including the one that ends the ray) has a file and a rank within `isize`.
pub open spec fn ray_in_range(
    squares: Seq<Option<Piece>>,
    file: int,
    rank: int,
    row: Seq<(isize, isize)>,
) -> bool
    decreases row.len(),
{
    if row.len() == 0 {
        true
    } else {
        let nf = file + row[0].0;
        let nr = rank + row[0].1;
        &&& isize::MIN <= nf <= isize::MAX
        &&& isize::MIN <= nr <= isize::MAX
        &&& (!on_board(nf, nr) || squares[nr * 8 + nf] is None) ==> ray_in_range(
            squares,
            file,
            rank,
            row.drop_first(),
        )
    }
}

/// Every ray of the table is walked within `isize` (see `ray_in_range`).
pub open spec fn table_in_range(
    squares: Seq<Option<Piece>>,
    file: int,
    rank: int,
    table: Seq<Seq<(isize, isize)>>,
) -> bool {
    forall|j: int| 0 <= j < table.len() ==> ray_in_range(squares, file, rank, #[trigger] table[j])
}

/// The squares reached along all rays of a table, ray after ray.
pub open spec fn table_targets(
    squares: Seq<Option<Piece>>,
    file: int,
    rank: int,
    table: Seq<Seq<(isize, isize)>>,
    color: Color,
) -> Seq<usize>
    decreases table.len(),
{
    if table.len() == 0 {
        Seq::empty()
    } else {
        table_targets(squares, file, rank, table.drop_last(), color) + ray_targets(
            squares,
            file,
            rank,
            table.last(),
            color,
        )
    }
}

/// The square holds a piece of the side other than `color`.
pub open spec fn is_enemy(square: Option<Piece>, color: Color) -> bool {
    square matches Some(other) && other.color != color
}

/// The square holds exactly this piece.
pub open spec fn holds(square: Option<Piece>, kind: PieceType, color: Color) -> bool {
    square == Some(Piece { kind, color })
}

/// The rank step of a pawn: White moves towards rank 0, Black towards rank 7.
pub open spec fn pawn_dir(color: Color) -> int {
    match color {
        Color::White => -1,
        Color::Black => 1,
    }
}

/// The rank a pawn starts on, from which it may advance two squares.
pub open spec fn pawn_start_rank(color: Color) -> int {
    match color {
        Color::White => 6,
        Color::Black => 1,
    }
}

/// The squares ahead that a pawn of `color` on (file, rank) may advance to:
/// one square ahead when empty, then two ahead from its start rank when that
/// one is empty too.
pub open spec fn pawn_advance_targets(squares: Seq<Option<Piece>>, file: int, rank: int, color: Color) -> Seq<usize> {
    let nr = rank + pawn_dir(color);
    let nr2 = rank + 2 * pawn_dir(color);
    if 0 <= nr <= 7 && squares[nr * 8 + file] is None {
        seq![(nr * 8 + file) as usize] + if rank == pawn_start_rank(color) && 0 <= nr2 <= 7
            && squares[nr2 * 8 + file] is None {
            seq![(nr2 * 8 + file) as usize]
        } else {
            Seq::empty()
        }
    } else {
        Seq::empty()
    }
}

/// The forward diagonal square, `side` files away (-1 left, 1 right), when it
/// is on the board and holds an enemy of a pawn of `color` on (file, rank).
pub open spec fn pawn_capture_target(
    squares: Seq<Option<Piece>>,
    file: int,
    rank: int,
    color: Color,
    side: int,
) -> Seq<usize> {
    let nr = rank + pawn_dir(color);
    if 0 <= nr <= 7 && 0 <= file + side <= 7 && is_enemy(squares[nr * 8 + file + side], color) {
        seq![(nr * 8 + file + side) as usize]
    } else {
        Seq::empty()
    }
}

/// The squares a pawn of `color` on square `index` may move to: its advances,
/// then its captures to the left, then to the right.
pub open spec fn pawn_move_targets(squares: Seq<Option<Piece>>, index: int, color: Color) -> Seq<usize> {
    let file = index % 8;
    let rank = index / 8;
    pawn_advance_targets(squares, file, rank, color) + pawn_capture_target(squares, file, rank, color, -1)
        + pawn_capture_target(squares, file, rank, color, 1)
}

/// The squares a pawn of `color` on square `index` attacks: the diagonal
/// squares one rank ahead (left, then right) that lie on the board, whatever
/// stands there.
pub open spec fn pawn_attack_targets(index: int, color: Color) -> Seq<usize> {
    let file = index % 8;
    let rank = index / 8;
    let nr = rank + pawn_dir(color);
    if !(0 <= nr <= 7) {
        Seq::empty()
    } else {
        (if file > 0 {
            seq![(nr * 8 + file - 1) as usize]
        } else {
            Seq::empty()
        }) + (if file < 7 {
            seq![(nr * 8 + file + 1) as usize]
        } else {
            Seq::empty()
        })
    }
}

/// The squares reached from `index` by a piece of `kind` and `color` along the
/// rays of its move table (knight, king, rook, bishop, queen).
pub open spec fn piece_table_targets(
    squares: Seq<Option<Piece>>,
    index: int,
    kind: PieceType,
    color: Color,
) -> Seq<usize> {
    let file = index % 8;
    let rank = index / 8;
    match kind {
        PieceType::Knight => table_targets(squares, file, rank, table_view(KNIGHT_MOVES), color),
        PieceType::King => table_targets(squares, file, rank, table_view(KING_MOVES), color),
        PieceType::Rook => table_targets(squares, file, rank, table_view(ROOK_MOVES), color),
        PieceType::Bishop => table_targets(squares, file, rank, table_view(BISHOP_MOVES), color),
        PieceType::Queen => table_targets(squares, file, rank, table_view(QUEEN_MOVES), color),
        PieceType::Pawn => Seq::empty(),
    }
}

/// The squares attacked by whatever stands on square `index`: nothing for an
/// empty square, the two forward diagonals for a pawn, and the squares of its
/// move table for any other piece.
pub open spec fn attack_targets(squares: Seq<Option<Piece>>, index: int) -> Seq<usize> {
    match squares[index] {
        None => Seq::empty(),
        Some(p) => match p.kind {
            PieceType::Pawn => pawn_attack_targets(index, p.color),
            _ => piece_table_targets(squares, index, p.kind, p.color),
        },
    }
}

/// Some piece of the side other than `color` attacks square `index`.
pub open spec fn square_attacked(squares: Seq<Option<Piece>>, index: usize, color: Color) -> bool {
    exists|i: int|
        0 <= i < 64 && is_enemy(squares[i], color) && #[trigger] attack_targets(squares, i).contains(
            index,
        )
}

/// Square `k` holds the king of `color` and no square before it does.
pub open spec fn first_king(squares: Seq<Option<Piece>>, color: Color, k: int) -> bool {
    &&& 0 <= k < 64
    &&& holds(squares[k], PieceType::King, color)
    &&& forall|j: int| 0 <= j < k ==> !holds(#[trigger] squares[j], PieceType::King, color)
}

/// The first king of `color` (in square order) is attacked; false when `color`
/// has no king.
pub open spec fn in_check(squares: Seq<Option<Piece>>, color: Color) -> bool {
    exists|k: int| #[trigger] first_king(squares, color, k) && square_attacked(squares, k as usize, color)
}

/// The king's castling targets: the square of the rook it castles with, when
/// the right is kept, the squares between are empty, the squares the king
/// stands on or crosses are not attacked by the other side, and the rook stands
/// there. The short castles test the two squares next to the rook's corner
/// side (61 and 62, resp. 5 and 6); the long castles test the king's square and
/// the two squares it crosses (60, 59, 58, resp. 4, 3, 2), while the rook and
/// the square beside it may be attacked.
pub open spec fn castle_targets(b: BoardView, index: int, color: Color) -> Seq<usize> {
    let sq = b.squares;
    if color == Color::White && index == 60 {
        (if b.can_rook_white_small && sq[61] is None && sq[62] is None && !square_attacked(
            sq,
            61,
            Color::White,
        ) && !square_attacked(sq, 62, Color::White) && holds(sq[63], PieceType::Rook, Color::White) {
            seq![63usize]
        } else {
            Seq::empty()
        }) + (if b.can_rook_white_big && sq[59] is None && sq[58] is None && sq[57] is None
            && !square_attacked(sq, 60, Color::White) && !square_attacked(sq, 59, Color::White)
            && !square_attacked(sq, 58, Color::White) && holds(sq[56], PieceType::Rook, Color::White) {
            seq![56usize]
        } else {
            Seq::empty()
        })
    } else if color == Color::Black && index == 4 {
        (if b.can_rook_black_small && sq[5] is None && sq[6] is None && !square_attacked(
            sq,
            5,
            Color::Black,
        ) && !square_attacked(sq, 6, Color::Black) && holds(sq[7], PieceType::Rook, Color::Black) {
            seq![7usize]
        } else {
            Seq::empty()
        }) + (if b.can_rook_black_big && sq[3] is None && sq[2] is None && sq[1] is None
            && !square_attacked(sq, 4, Color::Black) && !square_attacked(sq, 3, Color::Black)
            && !square_attacked(sq, 2, Color::Black) && holds(sq[0], PieceType::Rook, Color::Black) {
            seq![0usize]
        } else {
            Seq::empty()
        })
    } else {
        Seq::empty()
    }
}

/// The pseudo-legal moves of the piece on square `index` (its own king's safety
/// not considered): nothing for an empty square, the pawn's moves for a pawn,
/// the squares of its move table for other pieces, followed for a king by its
/// castling targets.
pub open spec fn pseudo_moves(b: BoardView, index: int) -> Seq<usize> {
    match b.squares[index] {
        None => Seq::empty(),
        Some(p) => match p.kind {
            PieceType::Pawn => pawn_move_targets(b.squares, index, p.color),
            PieceType::King => piece_table_targets(b.squares, index, p.kind, p.color)
                + castle_targets(b, index, p.color),
            _ => piece_table_targets(b.squares, index, p.kind, p.color),
        },
    }
}

/// The squares after the piece on `from` moved to `to` (whatever stood on `to`
/// is replaced, `from` is emptied).
pub open spec fn after_move(squares: Seq<Option<Piece>>, from: int, to: int) -> Seq<Option<Piece>> {
    squares.update(to, squares[from]).update(from, None)
}

/// The targets of `ts`, in order, after which the king of `color` is not in
/// check when the piece on `from` moves there.
pub open spec fn keep_safe(squares: Seq<Option<Piece>>, from: int, color: Color, ts: Seq<usize>) -> Seq<usize>
    decreases ts.len(),
{
    if ts.len() == 0 {
        Seq::empty()
    } else {
        keep_safe(squares, from, color, ts.drop_last()) + if !in_check(
            after_move(squares, from, ts.last() as int),
            color,
        ) {
            seq![ts.last()]
        } else {
            Seq::empty()
        }
    }
}

/// The legal moves of the piece on square `index`: its pseudo-legal moves
/// after which its own king is not in check; nothing for an empty square.
pub open spec fn safe_moves(b: BoardView, index: int) -> Seq<usize> {
    match b.squares[index] {
        None => Seq::empty(),
        Some(p) => keep_safe(b.squares, index, p.color, pseudo_moves(b, index)),
    }
}

} // verus!
