use vstd::prelude::*;

use crate::board::BoardView;
use crate::game::{after_click, move_allowed, GameView};
use crate::fen::fen_piece;
use crate::laws::{lemma_keep_safe_exact, lemma_table_entries, lemma_targets_on_board};
use crate::piece::{Color, Piece, PieceType};
use crate::rules::{
    attack_targets, entry_reached, first_king, holds, in_check, offset_on_board, offset_square, is_enemy, pseudo_moves, safe_moves, square_attacked, table_targets,
};
use crate::tables::{
    lemma_king_steps, lemma_knight_jumps, lemma_slider_rows, lemma_tables_distinct, row_is_ray, table_view, BISHOP_MOVES, KING_MOVES,
    KNIGHT_MOVES, QUEEN_MOVES, ROOK_MOVES,
};

verus! {

/// The legal moves are the pseudo-legal moves after which the mover's own
/// king is not in check, the check being judged on the board where the target
/// square holds the moving piece (whatever stood there is gone), the start
/// square is empty and every other square is unchanged.
pub proof fn law_legal_move_trial(b: BoardView, from: int, t: usize, trial: Seq<Option<Piece>>)
    requires
        0 <= from < 64,
        b.squares.len() == 64,
        b.squares[from] is Some,
        t < 64,
        t != from,
        trial.len() == 64,
        trial[t as int] == b.squares[from],
        trial[from] is None,
        forall|x: int| 0 <= x < 64 && x != t && x != from ==> trial[x] == b.squares[x],
    ensures
        safe_moves(b, from).contains(t) <==> (pseudo_moves(b, from).contains(t) && !in_check(
            trial,
            b.squares[from]->Some_0.color,
        )),
{
    let sq = b.squares;
    let color = sq[from]->Some_0.color;
    assert(trial =~= sq.update(t as int, sq[from]).update(from, None));
    lemma_keep_safe_exact(sq, from, color, pseudo_moves(b, from), t);
}

/// Every king step from (file, rank) reaches a square at most one file and
/// one rank away.
proof fn lemma_king_targets_near(squares: Seq<Option<Piece>>, index: int, color: Color)
    requires
        0 <= index < 64,
    ensures
        forall|t: usize|
            #[trigger] table_targets(squares, index % 8, index / 8, table_view(KING_MOVES), color).contains(t)
                ==> -1 <= t as int % 8 - index % 8 <= 1 && -1 <= t as int / 8 - index / 8 <= 1,
{
    let file = index % 8;
    let rank = index / 8;
    let res = table_targets(squares, file, rank, table_view(KING_MOVES), color);
    let idx = lemma_table_entries(squares, file, rank, table_view(KING_MOVES), color);
    lemma_king_steps();
    assert forall|t: usize| res.contains(t) implies -1 <= t as int % 8 - file <= 1 && -1 <= t as int / 8 - rank
        <= 1 by {
        let m = choose|m: int| 0 <= m < res.len() && res[m] == t;
        let (j, k) = idx[m];
        assert(entry_reached(squares, file, rank, table_view(KING_MOVES)[j], k, color));
        assert(table_view(KING_MOVES)[j] == KING_MOVES@[j]@);
        assert(k == 0);
        let d = KING_MOVES@[j]@[0];
        assert(-1 <= d.0 <= 1 && -1 <= d.1 <= 1);
        assert(0 <= file + d.0 <= 7 && 0 <= rank + d.1 <= 7);
        assert(t as int == (rank + d.1) * 8 + file + d.0);
    }
}

/// Castling is offered only on a safe, empty path with the right kept and the
/// rook at home. A white king on 60 moving to 63 (short) needs the White short
/// right, 61 and 62 empty and not attacked by Black, and a White rook on 63;
/// moving to 56 (long) needs the White long right, 57, 58 and 59 empty, 60, 59
/// and 58 not attacked by Black and a White rook on 56. Likewise a black king
/// on 4: to 7 with 5 and 6 empty and not attacked by White and a Black rook on
/// 7; to 0 with 1, 2 and 3 empty, 4, 3 and 2 not attacked by White and a Black
/// rook on 0.
pub proof fn law_castling_needs_safe_path(b: BoardView, index: int)
    requires
        0 <= index < 64,
        b.squares.len() == 64,
        b.squares[index] matches Some(p) && p.kind == PieceType::King,
    ensures
        ({
            let sq = b.squares;
            let moves = pseudo_moves(b, index);
            let white_rook = Some(Piece { kind: PieceType::Rook, color: Color::White });
            let black_rook = Some(Piece { kind: PieceType::Rook, color: Color::Black });
            &&& (sq[index]->Some_0.color == Color::White && index == 60 && moves.contains(63usize)) ==> {
                &&& b.can_rook_white_small
                &&& sq[61] is None && sq[62] is None
                &&& !square_attacked(sq, 61, Color::White) && !square_attacked(sq, 62, Color::White)
                &&& sq[63] == white_rook
            }
            &&& (sq[index]->Some_0.color == Color::White && index == 60 && moves.contains(56usize)) ==> {
                &&& b.can_rook_white_big
                &&& sq[57] is None && sq[58] is None && sq[59] is None
                &&& !square_attacked(sq, 60, Color::White) && !square_attacked(sq, 59, Color::White)
                    && !square_attacked(sq, 58, Color::White)
                &&& sq[56] == white_rook
            }
            &&& (sq[index]->Some_0.color == Color::Black && index == 4 && moves.contains(7usize)) ==> {
                &&& b.can_rook_black_small
                &&& sq[5] is None && sq[6] is None
                &&& !square_attacked(sq, 5, Color::Black) && !square_attacked(sq, 6, Color::Black)
                &&& sq[7] == black_rook
            }
            &&& (sq[index]->Some_0.color == Color::Black && index == 4 && moves.contains(0usize)) ==> {
                &&& b.can_rook_black_big
                &&& sq[1] is None && sq[2] is None && sq[3] is None
                &&& !square_attacked(sq, 4, Color::Black) && !square_attacked(sq, 3, Color::Black)
                    && !square_attacked(sq, 2, Color::Black)
                &&& sq[0] == black_rook
            }
        }),
{
    let sq = b.squares;
    let p = sq[index]->Some_0;
    lemma_king_targets_near(sq, index, p.color);
    let pt = table_targets(sq, index % 8, index / 8, table_view(KING_MOVES), p.color);
    let ct = crate::rules::castle_targets(b, index, p.color);
    let moves = pseudo_moves(b, index);
    assert(moves == pt + ct);
    assert forall|t: usize| moves.contains(t) && (t == 63 || t == 56 || t == 7 || t == 0) && (index == 60 || index
        == 4) implies ct.contains(t) by {
        let m = choose|m: int| 0 <= m < moves.len() && moves[m] == t;
        if m < pt.len() {
            assert(pt[m] == t);
            assert(pt.contains(t));
            assert(false);
        } else {
            assert(ct[m - pt.len()] == t);
        }
    }
}

/// A pawn moves one rank forward (towards rank 0 for White, rank 7 for
/// Black): straight ahead onto an empty square, or diagonally onto an enemy;
/// only from its start rank (6 for White, 1 for Black) may it also advance two
/// ranks straight ahead, over an empty square onto an empty square. Each of
/// these moves is offered whenever its conditions hold.
pub proof fn law_pawn_moves_shape(b: BoardView, index: int)
    requires
        0 <= index < 64,
        b.squares.len() == 64,
        b.squares[index] matches Some(p) && p.kind == PieceType::Pawn,
    ensures
        ({
            let sq = b.squares;
            let color = sq[index]->Some_0.color;
            let f = index % 8;
            let r = index / 8;
            let d: int = if color == Color::White { -1 } else { 1 };
            let start: int = if color == Color::White { 6 } else { 1 };
            &&& forall|t: usize| #[trigger] pseudo_moves(b, index).contains(t) ==> {
                ||| (t as int / 8 == r + d && t as int % 8 == f && sq[t as int] is None)
                ||| (t as int / 8 == r + d && (t as int % 8 == f - 1 || t as int % 8 == f + 1) && is_enemy(
                    sq[t as int],
                    color,
                ))
                ||| (r == start && t as int / 8 == r + 2 * d && t as int % 8 == f && sq[t as int] is None
                    && sq[(r + d) * 8 + f] is None)
            }
            &&& (0 <= r + d <= 7 && sq[(r + d) * 8 + f] is None) ==> pseudo_moves(b, index).contains(
                ((r + d) * 8 + f) as usize,
            )
            &&& (r == start && sq[(r + d) * 8 + f] is None && sq[(r + 2 * d) * 8 + f] is None) ==> pseudo_moves(
                b,
                index,
            ).contains(((r + 2 * d) * 8 + f) as usize)
            &&& (0 <= r + d <= 7 && f > 0 && is_enemy(sq[(r + d) * 8 + f - 1], color)) ==> pseudo_moves(
                b,
                index,
            ).contains(((r + d) * 8 + f - 1) as usize)
            &&& (0 <= r + d <= 7 && f < 7 && is_enemy(sq[(r + d) * 8 + f + 1], color)) ==> pseudo_moves(
                b,
                index,
            ).contains(((r + d) * 8 + f + 1) as usize)
        }),
{
    let sq = b.squares;
    let color = sq[index]->Some_0.color;
    let f = index % 8;
    let r = index / 8;
    let moves = pseudo_moves(b, index);
    let adv = crate::rules::pawn_advance_targets(sq, f, r, color);
    let lc = crate::rules::pawn_capture_target(sq, f, r, color, -1);
    let rc = crate::rules::pawn_capture_target(sq, f, r, color, 1);
    assert(moves == adv + lc + rc);
    let d: int = if color == Color::White { -1 } else { 1 };
    assert forall|t: usize| #[trigger] moves.contains(t) implies {
        ||| (t as int / 8 == r + d && t as int % 8 == f && sq[t as int] is None)
        ||| (t as int / 8 == r + d && (t as int % 8 == f - 1 || t as int % 8 == f + 1) && is_enemy(
            sq[t as int],
            color,
        ))
        ||| (r == (if color == Color::White { 6int } else { 1int }) && t as int / 8 == r + 2 * d && t as int % 8
            == f && sq[t as int] is None && sq[(r + d) * 8 + f] is None)
    } by {
        let m = choose|m: int| 0 <= m < moves.len() && moves[m] == t;
        if m < adv.len() {
            assert(adv[m] == t);
        } else if m < adv.len() + lc.len() {
            assert(lc[m - adv.len()] == t);
        } else {
            assert(rc[m - adv.len() - lc.len()] == t);
        }
    }
    if 0 <= r + d <= 7 && sq[(r + d) * 8 + f] is None {
        assert(moves[0] == ((r + d) * 8 + f) as usize);
        if r == (if color == Color::White { 6int } else { 1int }) && sq[(r + 2 * d) * 8 + f] is None {
            assert(moves[1] == ((r + 2 * d) * 8 + f) as usize);
        }
    }
    if 0 <= r + d <= 7 && f > 0 && is_enemy(sq[(r + d) * 8 + f - 1], color) {
        assert(moves[adv.len() as int] == ((r + d) * 8 + f - 1) as usize);
    }
    if 0 <= r + d <= 7 && f < 7 && is_enemy(sq[(r + d) * 8 + f + 1], color) {
        assert(moves[(adv.len() + lc.len()) as int] == ((r + d) * 8 + f + 1) as usize);
    }
}

/// What each FEN letter stands for: r/R rook, n/N knight, b/B bishop, q/Q
/// queen, k/K king, p/P pawn, lower case Black and upper case White; any other
/// character places nothing.
pub proof fn law_fen_letters(c: char)
    ensures
        fen_piece('r') == Some(Piece { kind: PieceType::Rook, color: Color::Black }),
        fen_piece('R') == Some(Piece { kind: PieceType::Rook, color: Color::White }),
        fen_piece('n') == Some(Piece { kind: PieceType::Knight, color: Color::Black }),
        fen_piece('N') == Some(Piece { kind: PieceType::Knight, color: Color::White }),
        fen_piece('b') == Some(Piece { kind: PieceType::Bishop, color: Color::Black }),
        fen_piece('B') == Some(Piece { kind: PieceType::Bishop, color: Color::White }),
        fen_piece('q') == Some(Piece { kind: PieceType::Queen, color: Color::Black }),
        fen_piece('Q') == Some(Piece { kind: PieceType::Queen, color: Color::White }),
        fen_piece('k') == Some(Piece { kind: PieceType::King, color: Color::Black }),
        fen_piece('K') == Some(Piece { kind: PieceType::King, color: Color::White }),
        fen_piece('p') == Some(Piece { kind: PieceType::Pawn, color: Color::Black }),
        fen_piece('P') == Some(Piece { kind: PieceType::Pawn, color: Color::White }),
        !(c == 'r' || c == 'R' || c == 'n' || c == 'N' || c == 'b' || c == 'B' || c == 'q' || c == 'Q'
            || c == 'k' || c == 'K' || c == 'p' || c == 'P') ==> fen_piece(c) is None,
{
}

/// A reached entry of a table gives its square among the table's targets.
proof fn lemma_reached_entry_targeted(
    squares: Seq<Option<Piece>>,
    file: int,
    rank: int,
    table: Seq<Seq<(isize, isize)>>,
    color: Color,
    j: int,
    k: int,
)
    requires
        0 <= j < table.len(),
        entry_reached(squares, file, rank, table[j], k, color),
    ensures
        table_targets(squares, file, rank, table, color).contains(
            offset_square(file, rank, table[j][k]) as usize,
        ),
{
    let idx = lemma_table_entries(squares, file, rank, table, color);
    let res = table_targets(squares, file, rank, table, color);
    assert(idx.contains((j, k)));
    let m = choose|m: int| 0 <= m < idx.len() && idx[m] == (j, k);
    assert(res[m] as int == offset_square(file, rank, table[j][k]));
}

/// The square (file + dx, rank + dy) is on the board and `j` is its index.
pub open spec fn jump_to(i: int, j: int, dx: int, dy: int) -> bool {
    &&& 0 <= j < 64
    &&& j % 8 == i % 8 + dx
    &&& j / 8 == i / 8 + dy
}

/// Square `j` holds no piece of the side `c`.
pub open spec fn not_own(square: Option<Piece>, c: Color) -> bool {
    !(square matches Some(q) && q.color == c)
}

/// An entry `d` of a one-square table (knight or king) reaches the square it
/// names whenever that square holds no piece of the mover's side.
proof fn lemma_step_attack(squares: Seq<Option<Piece>>, i: int, j: int, table: Seq<Seq<(isize, isize)>>, r: int, color: Color)
    requires
        squares.len() == 64,
        0 <= i < 64,
        0 <= r < table.len(),
        table[r].len() >= 1,
        jump_to(i, j, table[r][0].0 as int, table[r][0].1 as int),
        not_own(squares[j], color),
    ensures
        table_targets(squares, i % 8, i / 8, table, color).contains(j as usize),
{
    let d = table[r][0];
    assert(offset_on_board(i % 8, i / 8, d));
    assert(offset_square(i % 8, i / 8, d) == j);
    assert(entry_reached(squares, i % 8, i / 8, table[r], 0, color));
    lemma_reached_entry_targeted(squares, i % 8, i / 8, table, color, r, 0);
}

/// A knight attacks every square a knight's jump away ((±1, ±2) or (±2, ±1)
/// files and ranks) that holds no piece of its own side: such a square is
/// attacked against the other side.
pub proof fn law_knight_attacks(squares: Seq<Option<Piece>>, i: int, j: int, dx: int, dy: int, color: Color)
    requires
        squares.len() == 64,
        0 <= i < 64,
        squares[i] matches Some(p) && p.kind == PieceType::Knight && p.color != color,
        (dx == 1 || dx == -1) && (dy == 2 || dy == -2) || (dx == 2 || dx == -2) && (dy == 1 || dy == -1),
        jump_to(i, j, dx, dy),
        not_own(squares[j], squares[i]->Some_0.color),
    ensures
        square_attacked(squares, j as usize, color),
        attack_targets(squares, i).contains(j as usize),
{
    let p = squares[i]->Some_0;
    let table = table_view(KNIGHT_MOVES);
    let r: int = if dx == -1 && dy == -2 {
        0
    } else if dx == -2 && dy == -1 {
        1
    } else if dx == 1 && dy == -2 {
        2
    } else if dx == -2 && dy == 1 {
        3
    } else if dx == 2 && dy == -1 {
        4
    } else if dx == -1 && dy == 2 {
        5
    } else if dx == 1 && dy == 2 {
        6
    } else {
        7
    };
    assert(table[r] == KNIGHT_MOVES@[r]@);
    assert(table[r][0].0 == dx && table[r][0].1 == dy);
    lemma_step_attack(squares, i, j, table, r, p.color);
    assert(is_enemy(squares[i], color));
    assert(attack_targets(squares, i).contains(j as usize));
    assert(0 <= i < 64 && is_enemy(squares[i], color) && attack_targets(squares, i).contains(j as usize));
}

/// A king attacks every neighbouring square that holds no piece of its own
/// side.
pub proof fn law_king_attacks(squares: Seq<Option<Piece>>, i: int, j: int, dx: int, dy: int, color: Color)
    requires
        squares.len() == 64,
        0 <= i < 64,
        squares[i] matches Some(p) && p.kind == PieceType::King && p.color != color,
        -1 <= dx <= 1 && -1 <= dy <= 1 && (dx != 0 || dy != 0),
        jump_to(i, j, dx, dy),
        not_own(squares[j], squares[i]->Some_0.color),
    ensures
        square_attacked(squares, j as usize, color),
        attack_targets(squares, i).contains(j as usize),
{
    let p = squares[i]->Some_0;
    let table = table_view(KING_MOVES);
    let r: int = if dx == -1 && dy == -1 {
        0
    } else if dx == -1 && dy == 0 {
        1
    } else if dx == -1 && dy == 1 {
        2
    } else if dx == 0 && dy == -1 {
        3
    } else if dx == 0 && dy == 1 {
        4
    } else if dx == 1 && dy == -1 {
        5
    } else if dx == 1 && dy == 0 {
        6
    } else {
        7
    };
    assert(table[r] == KING_MOVES@[r]@);
    assert(table[r][0].0 == dx && table[r][0].1 == dy);
    lemma_step_attack(squares, i, j, table, r, p.color);
    assert(is_enemy(squares[i], color));
    assert(attack_targets(squares, i).contains(j as usize));
    assert(0 <= i < 64 && is_enemy(squares[i], color) && attack_targets(squares, i).contains(j as usize));
}

/// A pawn attacks the two squares diagonally one rank ahead (towards rank 0
/// for White, rank 7 for Black), whatever stands there.
pub proof fn law_pawn_attacks(squares: Seq<Option<Piece>>, i: int, j: int, dx: int, color: Color)
    requires
        squares.len() == 64,
        0 <= i < 64,
        squares[i] matches Some(p) && p.kind == PieceType::Pawn && p.color != color,
        dx == 1 || dx == -1,
        jump_to(i, j, dx, if squares[i]->Some_0.color == Color::White { -1 } else { 1 }),
    ensures
        square_attacked(squares, j as usize, color),
        attack_targets(squares, i).contains(j as usize),
{
    let p = squares[i]->Some_0;
    let a = attack_targets(squares, i);
    let f = i % 8;
    assert(j == (j / 8) * 8 + j % 8);
    if dx == -1 {
        assert(a[0] == j as usize);
    } else if f > 0 {
        assert(a[1] == j as usize);
    } else {
        assert(a[0] == j as usize);
    }
    assert(is_enemy(squares[i], color));
    assert(attack_targets(squares, i).contains(j as usize));
    assert(0 <= i < 64 && is_enemy(squares[i], color) && attack_targets(squares, i).contains(j as usize));
}

/// A rook (along files and ranks), a bishop (along diagonals) or a queen
/// (along both) attacks a square `n` steps away in direction (dx, dy) when all
/// squares in between are empty and the square holds no piece of its own side.
pub proof fn law_slider_attacks(
    squares: Seq<Option<Piece>>,
    i: int,
    dx: int,
    dy: int,
    n: int,
    color: Color,
)
    requires
        squares.len() == 64,
        0 <= i < 64,
        squares[i] matches Some(p) && p.color != color && (p.kind == PieceType::Rook || p.kind
            == PieceType::Bishop || p.kind == PieceType::Queen),
        -1 <= dx <= 1 && -1 <= dy <= 1 && (dx != 0 || dy != 0),
        squares[i]->Some_0.kind == PieceType::Rook ==> dx == 0 || dy == 0,
        squares[i]->Some_0.kind == PieceType::Bishop ==> dx != 0 && dy != 0,
        1 <= n <= 7,
        0 <= i % 8 + n * dx <= 7,
        0 <= i / 8 + n * dy <= 7,
        forall|s: int| 1 <= s < n ==> #[trigger] squares[(i / 8 + s * dy) * 8 + i % 8 + s * dx] is None,
        not_own(squares[(i / 8 + n * dy) * 8 + i % 8 + n * dx], squares[i]->Some_0.color),
    ensures
        square_attacked(squares, ((i / 8 + n * dy) * 8 + i % 8 + n * dx) as usize, color),
        attack_targets(squares, i).contains(((i / 8 + n * dy) * 8 + i % 8 + n * dx) as usize),
{
    let p = squares[i]->Some_0;
    let f = i % 8;
    let rk = i / 8;
    let j = (rk + n * dy) * 8 + f + n * dx;
    lemma_slider_rows();
    let (table, r): (Seq<Seq<(isize, isize)>>, int) = if p.kind == PieceType::Rook {
        (table_view(ROOK_MOVES), if dx == -1 { 0int } else if dx == 1 { 1int } else if dy == -1 { 2int } else { 3int })
    } else if p.kind == PieceType::Bishop {
        (table_view(BISHOP_MOVES), if dx == -1 && dy == -1 { 0int } else if dx == 1 && dy == -1 { 1int } else if dx == -1 { 2int } else { 3int })
    } else {
        (table_view(QUEEN_MOVES), if dx == -1 && dy == 0 { 0int } else if dx == 1 && dy == 0 { 1int } else if dx == 0 && dy == -1 { 2int }
            else if dx == 0 && dy == 1 { 3int } else if dx == -1 && dy == -1 { 4int } else if dx == 1 && dy == -1 { 5int }
            else if dx == -1 { 6int } else { 7int })
    };
    assert(row_is_ray(table[r], dx, dy));
    let row = table[r];
    let k = n - 1;
    assert(row[k].0 == n * dx && row[k].1 == n * dy);
    assert forall|k2: int| 0 <= k2 < k && offset_on_board(f, rk, #[trigger] row[k2]) implies squares[offset_square(
        f,
        rk,
        row[k2],
    )] is None by {
        assert(row[k2].0 == (k2 + 1) * dx && row[k2].1 == (k2 + 1) * dy);
        assert(squares[(rk + (k2 + 1) * dy) * 8 + f + (k2 + 1) * dx] is None);
    }
    assert(offset_square(f, rk, row[k]) == j);
    assert(entry_reached(squares, f, rk, row, k, p.color));
    lemma_reached_entry_targeted(squares, f, rk, table, p.color, r, k);
    assert(is_enemy(squares[i], color));
    assert(attack_targets(squares, i).contains(j as usize));
    assert(0 <= i < 64 && is_enemy(squares[i], color) && attack_targets(squares, i).contains(j as usize));
}

/// A square is attacked against `color` exactly when some square holds a
/// piece of the other side whose attacked squares include it.
pub proof fn law_attacked_has_attacker(squares: Seq<Option<Piece>>, j: usize, color: Color)
    ensures
        square_attacked(squares, j, color) <==> exists|i: int|
            0 <= i < 64 && (squares[i] matches Some(p) && p.color != color) && #[trigger] attack_targets(
                squares,
                i,
            ).contains(j),
{
}

/// With a single king of `color` on square `k`, that side is in check exactly
/// when `k` is attacked; with no king of `color` it is never in check.
pub proof fn law_check_is_king_attacked(squares: Seq<Option<Piece>>, color: Color, k: int)
    ensures
        (0 <= k < 64 && holds(squares[k], PieceType::King, color) && forall|x: int|
            0 <= x < 64 && x != k ==> !holds(#[trigger] squares[x], PieceType::King, color)) ==> (in_check(
            squares,
            color,
        ) <==> square_attacked(squares, k as usize, color)),
        (forall|x: int| 0 <= x < 64 ==> !holds(#[trigger] squares[x], PieceType::King, color)) ==> !in_check(
            squares,
            color,
        ),
{
    if 0 <= k < 64 && holds(squares[k], PieceType::King, color) && forall|x: int|
        0 <= x < 64 && x != k ==> !holds(#[trigger] squares[x], PieceType::King, color) {
        assert(first_king(squares, color, k));
        if in_check(squares, color) {
            let k2 = choose|k2: int| #[trigger] first_king(squares, color, k2) && square_attacked(squares, k2 as usize, color);
            assert(k2 == k);
        }
    }
}

/// From square `i`, `n` steps in direction (dx, dy) is a line a piece of
/// `kind` moves along (files and ranks for a rook, diagonals for a bishop,
/// both for a queen; at most seven steps), and the squares in between are empty.
pub open spec fn open_line(squares: Seq<Option<Piece>>, i: int, kind: PieceType, dx: int, dy: int, n: int) -> bool {
    &&& -1 <= dx <= 1 && -1 <= dy <= 1 && (dx != 0 || dy != 0)
    &&& kind == PieceType::Rook ==> dx == 0 || dy == 0
    &&& kind == PieceType::Bishop ==> dx != 0 && dy != 0
    &&& 1 <= n <= 7
    &&& forall|s: int| 1 <= s < n ==> #[trigger] squares[(i / 8 + s * dy) * 8 + i % 8 + s * dx] is None
}

/// What a piece attacks, by kind: a knight the squares a knight's jump away,
/// a king the neighbouring squares, a pawn the two squares diagonally one
/// rank ahead (towards rank 0 for White), and a rook, bishop or queen the
/// squares along its lines (files and ranks for the rook, diagonals for the
/// bishop, both for the queen) with every square in between empty. Apart from
/// the pawn's, no attacked square holds a piece of the attacker's side.
pub proof fn law_attack_shape(squares: Seq<Option<Piece>>, i: int, t: usize)
    requires
        squares.len() == 64,
        0 <= i < 64,
        attack_targets(squares, i).contains(t),
    ensures
        ({
            let p = squares[i]->Some_0;
            let fi = i % 8;
            let ri = i / 8;
            let ft = t as int % 8;
            let rt = t as int / 8;
            &&& squares[i] is Some
            &&& t < 64
            &&& p.kind != PieceType::Pawn ==> not_own(squares[t as int], p.color)
            &&& p.kind == PieceType::Knight ==> (((ft - fi == 1 || ft - fi == -1) && (rt - ri == 2 || rt - ri == -2))
                || ((ft - fi == 2 || ft - fi == -2) && (rt - ri == 1 || rt - ri == -1)))
            &&& p.kind == PieceType::King ==> -1 <= ft - fi <= 1 && -1 <= rt - ri <= 1 && t != i
            &&& p.kind == PieceType::Pawn ==> rt == ri + (if p.color == Color::White { -1int } else { 1int })
                && (ft == fi - 1 || ft == fi + 1)
            &&& (p.kind == PieceType::Rook || p.kind == PieceType::Bishop || p.kind == PieceType::Queen) ==> exists|
                dx: int,
                dy: int,
                n: int,
            | #[trigger] open_line(squares, i, p.kind, dx, dy, n) && ft == fi + n * dx && rt == ri + n * dy
        }),
{
    let p = squares[i]->Some_0;
    let fi = i % 8;
    let ri = i / 8;
    crate::laws::lemma_targets_on_board(BoardView {
        squares,
        black_play: false,
        white_play: true,
        can_rook_black_small: false,
        can_rook_black_big: false,
        can_rook_white_small: false,
        can_rook_white_big: false,
        number_of_half_moves: 0,
        number_of_moves: 0,
    }, i);
    if p.kind == PieceType::Pawn {
        let a = attack_targets(squares, i);
        let m = choose|m: int| 0 <= m < a.len() && a[m] == t;
        assert(t as int == (t as int / 8) * 8 + t as int % 8);
    } else {
        let table = if p.kind == PieceType::Knight {
            table_view(KNIGHT_MOVES)
        } else if p.kind == PieceType::King {
            table_view(KING_MOVES)
        } else if p.kind == PieceType::Rook {
            table_view(ROOK_MOVES)
        } else if p.kind == PieceType::Bishop {
            table_view(BISHOP_MOVES)
        } else {
            table_view(QUEEN_MOVES)
        };
        let res = table_targets(squares, fi, ri, table, p.color);
        assert(res == attack_targets(squares, i));
        let idx = lemma_table_entries(squares, fi, ri, table, p.color);
        let m = choose|m: int| 0 <= m < res.len() && res[m] == t;
        let (r, k) = idx[m];
        let row = table[r];
        assert(entry_reached(squares, fi, ri, row, k, p.color));
        let d = row[k];
        assert(t as int == (ri + d.1) * 8 + fi + d.0);
        assert(0 <= fi + d.0 <= 7 && 0 <= ri + d.1 <= 7);
        assert(t as int % 8 == fi + d.0 && t as int / 8 == ri + d.1);
        if p.kind == PieceType::Knight {
            lemma_knight_jumps();
            assert(row == KNIGHT_MOVES@[r]@);
            assert(k == 0);
        } else if p.kind == PieceType::King {
            lemma_king_steps();
            lemma_tables_distinct();
            assert(row == KING_MOVES@[r]@);
            assert(k == 0);
            assert(d != (0isize, 0isize));
        } else {
            lemma_slider_ray_witness(squares, i, p, table, r, k);
        }
    }
}

/// The slider part of `law_attack_shape`: a reached entry of a slider's table
/// lies along one of its lines, with the squares in between empty.
proof fn lemma_slider_ray_witness(
    squares: Seq<Option<Piece>>,
    i: int,
    p: Piece,
    table: Seq<Seq<(isize, isize)>>,
    r: int,
    k: int,
)
    requires
        0 <= i < 64,
        squares[i] == Some(p),
        p.kind == PieceType::Rook || p.kind == PieceType::Bishop || p.kind == PieceType::Queen,
        table == (if p.kind == PieceType::Rook {
            table_view(ROOK_MOVES)
        } else if p.kind == PieceType::Bishop {
            table_view(BISHOP_MOVES)
        } else {
            table_view(QUEEN_MOVES)
        }),
        0 <= r < table.len(),
        entry_reached(squares, i % 8, i / 8, table[r], k, p.color),
    ensures
        exists|dx: int, dy: int, n: int|
            #[trigger] open_line(squares, i, p.kind, dx, dy, n) && table[r][k].0 == n * dx && table[r][k].1 == n * dy,
{
    let fi = i % 8;
    let ri = i / 8;
    lemma_slider_rows();
    let (dx, dy): (int, int) = if p.kind == PieceType::Rook {
        if r == 0 { (-1, 0) } else if r == 1 { (1, 0) } else if r == 2 { (0, -1) } else { (0, 1) }
    } else if p.kind == PieceType::Bishop {
        if r == 0 { (-1, -1) } else if r == 1 { (1, -1) } else if r == 2 { (-1, 1) } else { (1, 1) }
    } else {
        if r == 0 { (-1, 0) } else if r == 1 { (1, 0) } else if r == 2 { (0, -1) } else if r == 3 { (0, 1) }
        else if r == 4 { (-1, -1) } else if r == 5 { (1, -1) } else if r == 6 { (-1, 1) } else { (1, 1) }
    };
    let row = table[r];
    assert(row_is_ray(row, dx, dy));
    let n = k + 1;
    assert(row[k].0 == n * dx && row[k].1 == n * dy);
    assert(0 <= fi + n * dx <= 7 && 0 <= ri + n * dy <= 7);
    assert forall|s: int| 1 <= s < n implies #[trigger] squares[(ri + s * dy) * 8 + fi + s * dx] is None by {
        let k2 = s - 1;
        assert(row[k2].0 == s * dx && row[k2].1 == s * dy);
        assert(0 <= fi + s * dx <= 7 && 0 <= ri + s * dy <= 7) by {
            if dx == 1 {
                assert(fi + s * dx == fi + s && fi + n * dx == fi + n);
            } else if dx == -1 {
                assert(fi + s * dx == fi - s && fi + n * dx == fi - n);
            } else {
                assert(fi + s * dx == fi);
            }
            if dy == 1 {
                assert(ri + s * dy == ri + s && ri + n * dy == ri + n);
            } else if dy == -1 {
                assert(ri + s * dy == ri - s && ri + n * dy == ri - n);
            } else {
                assert(ri + s * dy == ri);
            }
        }
        assert(offset_on_board(fi, ri, row[k2]));
    }
    assert(open_line(squares, i, p.kind, dx, dy, n));
}

/// Castling on the board: a king selected on its home square and played to
/// its rook's corner lands two squares towards that corner, the rook lands on
/// the square the king crossed, the corner and the home square are emptied,
/// every other square stays, and the side loses both castling rights. White
/// castles from 60 to 63 (king 62, rook 61) or 56 (king 58, rook 59), Black
/// from 4 to 7 (king 6, rook 5) or 0 (king 2, rook 3).
pub proof fn law_castling_on_click(g: GameView, corner: usize, x: int)
    requires
        g.board.squares.len() == 64,
        corner < 64,
        0 <= x < 64,
        move_allowed(g, corner),
        ({
            let c = if corner == 63 || corner == 56 { Color::White } else { Color::Black };
            let home: usize = if c == Color::White { 60 } else { 4 };
            &&& corner == 63 || corner == 56 || corner == 7 || corner == 0
            &&& g.selected == Some(home)
            &&& g.board.squares[home as int] == Some(Piece { kind: PieceType::King, color: c })
        }),
    ensures
        ({
            let c = if corner == 63 || corner == 56 { Color::White } else { Color::Black };
            let home: int = if c == Color::White { 60 } else { 4 };
            let king_to: int = if corner == 63 { 62 } else if corner == 56 { 58 } else if corner == 7 { 6 } else { 2 };
            let rook_to: int = if corner == 63 { 61 } else if corner == 56 { 59 } else if corner == 7 { 5 } else { 3 };
            let after = after_click(g, corner).board;
            &&& after.squares[king_to] == Some(Piece { kind: PieceType::King, color: c })
            &&& after.squares[rook_to] == Some(Piece { kind: PieceType::Rook, color: c })
            &&& after.squares[corner as int] is None
            &&& after.squares[home] is None
            &&& (x != king_to && x != rook_to && x != corner && x != home) ==> after.squares[x] == g.board.squares[x]
            &&& c == Color::White ==> !after.can_rook_white_small && !after.can_rook_white_big
            &&& c == Color::Black ==> !after.can_rook_black_small && !after.can_rook_black_big
            &&& after_click(g, corner).selected is None
        }),
{
}

/// Castling rights on a click that moves (or tries to move) a piece from the
/// selected square `start` to `end`: a right is lost when its rook leaves its
/// corner, when anything is played to its corner, or when that side's king is
/// played; otherwise every right stays.
pub proof fn law_rights_on_click(g: GameView, end: usize)
    requires
        g.board.squares.len() == 64,
        g.selected matches Some(s) && s != end && s < 64,
    ensures
        ({
            let start = g.selected->Some_0;
            let sq = g.board.squares;
            let piece = sq[start as int];
            let played = move_allowed(g, end);
            let before = g.board;
            let after = after_click(g, end).board;
            let white_king_played = played && piece == Some(Piece { kind: PieceType::King, color: Color::White });
            let black_king_played = played && piece == Some(Piece { kind: PieceType::King, color: Color::Black });
            &&& after.can_rook_white_small == (before.can_rook_white_small && !white_king_played && end != 63 && !(start
                == 63 && piece == Some(Piece { kind: PieceType::Rook, color: Color::White })))
            &&& after.can_rook_white_big == (before.can_rook_white_big && !white_king_played && end != 56 && !(start
                == 56 && piece == Some(Piece { kind: PieceType::Rook, color: Color::White })))
            &&& after.can_rook_black_small == (before.can_rook_black_small && !black_king_played && end != 7 && !(start
                == 7 && piece == Some(Piece { kind: PieceType::Rook, color: Color::Black })))
            &&& after.can_rook_black_big == (before.can_rook_black_big && !black_king_played && end != 0 && !(start
                == 0 && piece == Some(Piece { kind: PieceType::Rook, color: Color::Black })))
        }),
{
}

/// Castling is offered whenever the right is kept, the squares between king
/// and rook are empty, the king's square and the squares it crosses are not
/// attacked by the other side and the rook is home (see
/// `law_castling_needs_safe_path` for the squares of each castle).
pub proof fn law_castling_offered(b: BoardView)
    requires
        b.squares.len() == 64,
    ensures
        ({
            let sq = b.squares;
            let wk = Some(Piece { kind: PieceType::King, color: Color::White });
            let bk = Some(Piece { kind: PieceType::King, color: Color::Black });
            let wr = Some(Piece { kind: PieceType::Rook, color: Color::White });
            let br = Some(Piece { kind: PieceType::Rook, color: Color::Black });
            &&& (sq[60] == wk && b.can_rook_white_small && sq[61] is None && sq[62] is None && !square_attacked(sq, 61, Color::White)
                && !square_attacked(sq, 62, Color::White) && sq[63] == wr) ==> pseudo_moves(b, 60).contains(63usize)
            &&& (sq[60] == wk && b.can_rook_white_big && sq[57] is None && sq[58] is None && sq[59] is None
                && !square_attacked(sq, 60, Color::White) && !square_attacked(sq, 59, Color::White)
                && !square_attacked(sq, 58, Color::White) && sq[56] == wr) ==> pseudo_moves(b, 60).contains(56usize)
            &&& (sq[4] == bk && b.can_rook_black_small && sq[5] is None && sq[6] is None && !square_attacked(sq, 5, Color::Black)
                && !square_attacked(sq, 6, Color::Black) && sq[7] == br) ==> pseudo_moves(b, 4).contains(7usize)
            &&& (sq[4] == bk && b.can_rook_black_big && sq[1] is None && sq[2] is None && sq[3] is None
                && !square_attacked(sq, 4, Color::Black) && !square_attacked(sq, 3, Color::Black)
                && !square_attacked(sq, 2, Color::Black) && sq[0] == br) ==> pseudo_moves(b, 4).contains(0usize)
        }),
{
    let sq = b.squares;
    if sq[60] == Some(Piece { kind: PieceType::King, color: Color::White }) {
        let pt = table_targets(sq, 4, 7, table_view(KING_MOVES), Color::White);
        let ct = crate::rules::castle_targets(b, 60, Color::White);
        assert(pseudo_moves(b, 60) == pt + ct);
        if ct.len() > 0 {
            assert(pseudo_moves(b, 60)[pt.len() as int] == ct[0]);
        }
        if ct.len() > 1 {
            assert(pseudo_moves(b, 60)[(pt.len() + 1) as int] == ct[1]);
        }
    }
    if sq[4] == Some(Piece { kind: PieceType::King, color: Color::Black }) {
        let pt = table_targets(sq, 4, 0, table_view(KING_MOVES), Color::Black);
        let ct = crate::rules::castle_targets(b, 4, Color::Black);
        assert(pseudo_moves(b, 4) == pt + ct);
        if ct.len() > 0 {
            assert(pseudo_moves(b, 4)[pt.len() as int] == ct[0]);
        }
        if ct.len() > 1 {
            assert(pseudo_moves(b, 4)[(pt.len() + 1) as int] == ct[1]);
        }
    }
}

} // verus!
