use vstd::prelude::*;

use crate::board::{with_piece, BoardView};
use crate::game::{after_click, after_turn, click_ok, game_wf, move_allowed, GameView};
use crate::piece::{Color, Piece, PieceType};
use crate::rules::{
    after_move, attack_targets, castle_targets, in_check, is_enemy, keep_safe, on_board,
    pawn_advance_targets, pawn_attack_targets, pawn_capture_target, piece_table_targets,
    entry_reached, enumerates_reached, offset_on_board, offset_square, pseudo_moves, ray_in_range,
    ray_targets, safe_moves, table_in_range, table_targets,
};
use crate::tables::{
    lemma_king_steps, lemma_tables_distinct, table_distinct, table_fits, table_view, BISHOP_MOVES,
    KING_MOVES, KNIGHT_MOVES, QUEEN_MOVES, ROOK_MOVES,
};

verus! {

/// Every square reached along a ray is a board square.
pub proof fn lemma_ray_on_board(
    squares: Seq<Option<Piece>>,
    file: int,
    rank: int,
    row: Seq<(isize, isize)>,
    color: Color,
)
    ensures
        forall|i: int|
            0 <= i < ray_targets(squares, file, rank, row, color).len() ==> #[trigger] ray_targets(
                squares,
                file,
                rank,
                row,
                color,
            )[i] < 64,
    decreases row.len(),
{
    if row.len() > 0 {
        lemma_ray_on_board(squares, file, rank, row.drop_first(), color);
        let rest = ray_targets(squares, file, rank, row.drop_first(), color);
        let r = ray_targets(squares, file, rank, row, color);
        let nf = file + row[0].0;
        let nr = rank + row[0].1;
        assert forall|i: int| 0 <= i < r.len() implies #[trigger] r[i] < 64 by {
            if on_board(nf, nr) && squares[nr * 8 + nf] is None && i > 0 {
                assert(r[i] == rest[i - 1]);
            }
        }
    }
}

/// Every square reached along the rays of a table is a board square.
pub proof fn lemma_table_on_board(
    squares: Seq<Option<Piece>>,
    file: int,
    rank: int,
    table: Seq<Seq<(isize, isize)>>,
    color: Color,
)
    ensures
        forall|i: int|
            0 <= i < table_targets(squares, file, rank, table, color).len() ==> #[trigger] table_targets(
                squares,
                file,
                rank,
                table,
                color,
            )[i] < 64,
    decreases table.len(),
{
    if table.len() > 0 {
        lemma_table_on_board(squares, file, rank, table.drop_last(), color);
        lemma_ray_on_board(squares, file, rank, table.last(), color);
        let a = table_targets(squares, file, rank, table.drop_last(), color);
        let b = ray_targets(squares, file, rank, table.last(), color);
        assert forall|i: int| 0 <= i < (a + b).len() implies #[trigger] (a + b)[i] < 64 by {
            if i < a.len() {
                assert((a + b)[i] == a[i]);
            } else {
                assert((a + b)[i] == b[i - a.len()]);
            }
        }
    }
}

/// Move targets are board squares: every pseudo-legal move, every attacked
/// square and every legal move of a piece on a board square is a board square.
#[verifier::rlimit(40)]
pub proof fn lemma_targets_on_board(b: BoardView, index: int)
    requires
        0 <= index < 64,
    ensures
        forall|t: usize| pseudo_moves(b, index).contains(t) ==> t < 64,
        forall|t: usize| attack_targets(b.squares, index).contains(t) ==> t < 64,
        forall|t: usize| safe_moves(b, index).contains(t) ==> t < 64,
{
    let sq = b.squares;
    let file = index % 8;
    let rank = index / 8;
    if let Some(p) = sq[index] {
        lemma_table_on_board(sq, file, rank, table_view(crate::tables::KNIGHT_MOVES), p.color);
        lemma_table_on_board(sq, file, rank, table_view(crate::tables::KING_MOVES), p.color);
        lemma_table_on_board(sq, file, rank, table_view(crate::tables::ROOK_MOVES), p.color);
        lemma_table_on_board(sq, file, rank, table_view(crate::tables::BISHOP_MOVES), p.color);
        lemma_table_on_board(sq, file, rank, table_view(crate::tables::QUEEN_MOVES), p.color);
        let pt = piece_table_targets(sq, index, p.kind, p.color);
        let ct = castle_targets(b, index, p.color);
        assert forall|t: usize| pseudo_moves(b, index).contains(t) implies t < 64 by {
            let i = choose|i: int| 0 <= i < pseudo_moves(b, index).len() && pseudo_moves(b, index)[i] == t;
            if p.kind == PieceType::King {
                if i < pt.len() {
                    assert((pt + ct)[i] == pt[i]);
                } else {
                    assert((pt + ct)[i] == ct[i - pt.len()]);
                }
            }
        }
        lemma_keep_safe_sub(sq, index, p.color, pseudo_moves(b, index));
        assert forall|t: usize| safe_moves(b, index).contains(t) implies t < 64 by {
            assert(pseudo_moves(b, index).contains(t));
        }
    } else {
        assert forall|t: usize| safe_moves(b, index).contains(t) implies t < 64 by {
            assert(safe_moves(b, index) =~= Seq::<usize>::empty());
        }
        assert forall|t: usize| pseudo_moves(b, index).contains(t) implies t < 64 by {
            assert(pseudo_moves(b, index) =~= Seq::<usize>::empty());
        }
        assert forall|t: usize| attack_targets(b.squares, index).contains(t) implies t < 64 by {
            assert(attack_targets(b.squares, index) =~= Seq::<usize>::empty());
        }
    }
}

/// Keeping the safe targets keeps a part of the targets.
pub proof fn lemma_keep_safe_sub(squares: Seq<Option<Piece>>, from: int, color: Color, ts: Seq<usize>)
    ensures
        forall|t: usize| keep_safe(squares, from, color, ts).contains(t) ==> ts.contains(t),
    decreases ts.len(),
{
    if ts.len() > 0 {
        lemma_keep_safe_sub(squares, from, color, ts.drop_last());
        let a = keep_safe(squares, from, color, ts.drop_last());
        let k = keep_safe(squares, from, color, ts);
        assert forall|t: usize| k.contains(t) implies ts.contains(t) by {
            let i = choose|i: int| 0 <= i < k.len() && k[i] == t;
            if i < a.len() {
                assert(k[i] == a[i]);
                assert(a.contains(t));
                assert(ts.drop_last().contains(t));
                let j = choose|j: int| 0 <= j < ts.drop_last().len() && ts.drop_last()[j] == t;
                assert(ts[j] == t);
            } else {
                assert(t == ts.last());
                assert(ts[ts.len() - 1] == t);
            }
        }
    }
}

/// Putting a piece on a square: that square then holds it and every other
/// square keeps its content.
pub proof fn law_get_after_set(b: BoardView, index: int, piece: Piece, other: int)
    requires
        0 <= index < 64,
        0 <= other < 64,
        b.squares.len() == 64,
    ensures
        with_piece(b, index, piece).squares[index] == Some(piece),
        other != index ==> with_piece(b, index, piece).squares[other] == b.squares[other],
        with_piece(b, index, piece).squares.len() == 64,
{
}

/// The squares reached along a ray are empty or hold an enemy.
pub proof fn lemma_ray_free_or_enemy(
    squares: Seq<Option<Piece>>,
    file: int,
    rank: int,
    row: Seq<(isize, isize)>,
    color: Color,
)
    ensures
        forall|t: usize|
            ray_targets(squares, file, rank, row, color).contains(t) ==> squares[t as int] is None
                || is_enemy(squares[t as int], color),
    decreases row.len(),
{
    if row.len() > 0 {
        lemma_ray_free_or_enemy(squares, file, rank, row.drop_first(), color);
        let rest = ray_targets(squares, file, rank, row.drop_first(), color);
        let r = ray_targets(squares, file, rank, row, color);
        let nf = file + row[0].0;
        let nr = rank + row[0].1;
        assert forall|t: usize| r.contains(t) implies squares[t as int] is None || is_enemy(
            squares[t as int],
            color,
        ) by {
            let i = choose|i: int| 0 <= i < r.len() && r[i] == t;
            if on_board(nf, nr) && squares[nr * 8 + nf] is None && i > 0 {
                assert(r[i] == rest[i - 1]);
                assert(rest.contains(t));
            } else if !on_board(nf, nr) {
                assert(rest.contains(t));
            }
        }
    }
}

/// The squares reached along the rays of a table are empty or hold an enemy.
pub proof fn lemma_table_free_or_enemy(
    squares: Seq<Option<Piece>>,
    file: int,
    rank: int,
    table: Seq<Seq<(isize, isize)>>,
    color: Color,
)
    ensures
        forall|t: usize|
            table_targets(squares, file, rank, table, color).contains(t) ==> squares[t as int] is None
                || is_enemy(squares[t as int], color),
    decreases table.len(),
{
    if table.len() > 0 {
        lemma_table_free_or_enemy(squares, file, rank, table.drop_last(), color);
        lemma_ray_free_or_enemy(squares, file, rank, table.last(), color);
        let a = table_targets(squares, file, rank, table.drop_last(), color);
        let b = ray_targets(squares, file, rank, table.last(), color);
        assert forall|t: usize| (a + b).contains(t) implies squares[t as int] is None || is_enemy(
            squares[t as int],
            color,
        ) by {
            let i = choose|i: int| 0 <= i < (a + b).len() && (a + b)[i] == t;
            if i < a.len() {
                assert(a[i] == t);
                assert(a.contains(t));
            } else {
                assert(b[i - a.len()] == t);
                assert(b.contains(t));
            }
        }
    }
}

/// A piece never moves onto a piece of its own side, except a king castling,
/// whose target is the square of the rook it castles with.
pub proof fn law_no_own_capture(b: BoardView, index: int, t: usize)
    requires
        0 <= index < 64,
        pseudo_moves(b, index).contains(t),
        b.squares[t as int] matches Some(q) && b.squares[index] matches Some(p) && q.color == p.color,
    ensures
        b.squares[index]->Some_0.kind == PieceType::King,
        castle_targets(b, index, b.squares[index]->Some_0.color).contains(t),
{
    let sq = b.squares;
    let p = sq[index]->Some_0;
    let file = index % 8;
    let rank = index / 8;
    lemma_table_free_or_enemy(sq, file, rank, table_view(crate::tables::KNIGHT_MOVES), p.color);
    lemma_table_free_or_enemy(sq, file, rank, table_view(crate::tables::KING_MOVES), p.color);
    lemma_table_free_or_enemy(sq, file, rank, table_view(crate::tables::ROOK_MOVES), p.color);
    lemma_table_free_or_enemy(sq, file, rank, table_view(crate::tables::BISHOP_MOVES), p.color);
    lemma_table_free_or_enemy(sq, file, rank, table_view(crate::tables::QUEEN_MOVES), p.color);
    let pm = pseudo_moves(b, index);
    let i = choose|i: int| 0 <= i < pm.len() && pm[i] == t;
    if p.kind == PieceType::Pawn {
        let adv = pawn_advance_targets(sq, file, rank, p.color);
        let l = pawn_capture_target(sq, file, rank, p.color, -1);
        let r = pawn_capture_target(sq, file, rank, p.color, 1);
        assert(pm == adv + l + r);
        if i < adv.len() {
            assert(adv[i] == t);
        } else if i < adv.len() + l.len() {
            assert(l[i - adv.len()] == t);
        } else {
            assert(r[i - adv.len() - l.len()] == t);
        }
        assert(false);
    } else if p.kind == PieceType::King {
        let pt = piece_table_targets(sq, index, p.kind, p.color);
        let ct = castle_targets(b, index, p.color);
        if i < pt.len() {
            assert(pt[i] == t);
            assert(pt.contains(t));
            assert(false);
        } else {
            assert(ct[i - pt.len()] == t);
        }
    } else {
        assert(piece_table_targets(sq, index, p.kind, p.color).contains(t));
    }
}

/// What keeping the safe targets keeps: exactly the targets after which the
/// king of `color` is not in check.
pub proof fn lemma_keep_safe_exact(squares: Seq<Option<Piece>>, from: int, color: Color, ts: Seq<usize>, t: usize)
    ensures
        keep_safe(squares, from, color, ts).contains(t) <==> (ts.contains(t) && !in_check(
            after_move(squares, from, t as int),
            color,
        )),
    decreases ts.len(),
{
    if ts.len() > 0 {
        lemma_keep_safe_exact(squares, from, color, ts.drop_last(), t);
        let a = keep_safe(squares, from, color, ts.drop_last());
        let k = keep_safe(squares, from, color, ts);
        let last = ts.last();
        let tail: Seq<usize> = if !in_check(after_move(squares, from, last as int), color) {
            seq![last]
        } else {
            Seq::empty()
        };
        assert(k == a + tail);
        if k.contains(t) {
            let i = choose|i: int| 0 <= i < k.len() && k[i] == t;
            if i < a.len() {
                assert(a[i] == t);
                assert(a.contains(t));
                let j = choose|j: int| 0 <= j < ts.drop_last().len() && ts.drop_last()[j] == t;
                assert(ts[j] == t);
            } else {
                assert(tail[i - a.len()] == t);
                assert(ts[ts.len() - 1] == t);
            }
        }
        if ts.contains(t) && !in_check(after_move(squares, from, t as int), color) {
            let j = choose|j: int| 0 <= j < ts.len() && ts[j] == t;
            if j < ts.len() - 1 {
                assert(ts.drop_last()[j] == t);
                assert(ts.drop_last().contains(t));
                assert(a.contains(t));
                let i = choose|i: int| 0 <= i < a.len() && a[i] == t;
                assert(k[i] == t);
            } else {
                assert(k[a.len() as int] == t);
            }
        }
    }
}

/// The legal moves are exactly the pseudo-legal moves after which the mover's
/// own king is not in check.
pub proof fn law_legal_moves_are_safe(b: BoardView, index: int, t: usize)
    requires
        0 <= index < 64,
        b.squares[index] is Some,
    ensures
        safe_moves(b, index).contains(t) <==> (pseudo_moves(b, index).contains(t) && !in_check(
            after_move(b.squares, index, t as int),
            b.squares[index]->Some_0.color,
        )),
{
    lemma_keep_safe_exact(b.squares, index, b.squares[index]->Some_0.color, pseudo_moves(b, index), t);
}

/// A knight, bishop, rook or queen moves exactly to the squares it attacks;
/// a king's moves are the squares it attacks followed by its castling targets.
pub proof fn law_moves_match_attacks(b: BoardView, index: int)
    requires
        0 <= index < 64,
        b.squares[index] matches Some(p) && p.kind != PieceType::Pawn,
    ensures
        b.squares[index]->Some_0.kind != PieceType::King ==> pseudo_moves(b, index) == attack_targets(b.squares, index),
        b.squares[index]->Some_0.kind == PieceType::King ==> pseudo_moves(b, index) == attack_targets(b.squares, index)
            + castle_targets(b, index, b.squares[index]->Some_0.color),
{
}

/// An empty square has no moves, no legal moves and attacks nothing.
pub proof fn law_empty_square_is_idle(b: BoardView, index: int)
    requires
        0 <= index < 64,
        b.squares[index] is None,
    ensures
        pseudo_moves(b, index) == Seq::<usize>::empty(),
        safe_moves(b, index) == Seq::<usize>::empty(),
        attack_targets(b.squares, index) == Seq::<usize>::empty(),
{
}

/// A pawn captures only on a square it attacks.
pub proof fn law_pawn_captures_are_attacks(squares: Seq<Option<Piece>>, index: int, color: Color, side: int, t: usize)
    requires
        0 <= index < 64,
        side == -1 || side == 1,
        pawn_capture_target(squares, index % 8, index / 8, color, side).contains(t),
    ensures
        pawn_attack_targets(index, color).contains(t),
{
    let c = pawn_capture_target(squares, index % 8, index / 8, color, side);
    assert(c[0] == t);
    let a = pawn_attack_targets(index, color);
    let file = index % 8;
    if side == -1 {
        assert(a[0] == t);
    } else if file > 0 {
        assert(a[1] == t);
    } else {
        assert(a[0] == t);
    }
}

/// A refused move (a click, with a square selected, on another square that is
/// not among the moves shown) leaves every square as it was and keeps the
/// selection and the moves shown; it still counts a half move.
pub proof fn law_refused_move_keeps_board(g: GameView, index: usize)
    requires
        click_ok(g, index),
        g.selected matches Some(s) && s != index,
        !move_allowed(g, index),
    ensures
        after_click(g, index).board.squares == g.board.squares,
        after_click(g, index).selected == g.selected,
        after_click(g, index).move_pieces == g.move_pieces,
        after_click(g, index).board.number_of_half_moves == g.board.number_of_half_moves + 1,
{
}

/// A played move of a piece other than a king takes the piece from the
/// selected square to the clicked one, empties the selected square, leaves
/// every other square as it was and clears the selection.
pub proof fn law_played_move_moves_piece(g: GameView, index: usize, other: int)
    requires
        game_wf(g),
        g.board.squares.len() == 64,
        g.selected matches Some(s) && s != index,
        move_allowed(g, index),
        g.board.squares[g.selected->Some_0 as int] matches Some(p) && p.kind != PieceType::King,
        0 <= other < g.board.squares.len(),
        other != index,
        other != g.selected->Some_0,
    ensures
        after_click(g, index).board.squares[index as int] == g.board.squares[g.selected->Some_0 as int],
        after_click(g, index).board.squares[g.selected->Some_0 as int] is None,
        after_click(g, index).board.squares[other] == g.board.squares[other],
        after_click(g, index).selected is None,
        after_click(g, index).move_pieces is None,
{
    assert(index < 64);
}

/// Selecting a piece and clicking it again gives back the game as it was
/// when no moves were shown.
pub proof fn law_reselect_cancels(g: GameView, index: usize)
    requires
        g.selected is None,
        g.move_pieces is None,
        g.board.squares[index as int] matches Some(a) && a.color == g.who_play,
    ensures
        after_click(after_click(g, index), index) == g,
{
}

/// After the turn update the side to play is given by the parity of the
/// half-move count: White when even, Black when odd.
pub proof fn law_turn_follows_parity(g: GameView)
    ensures
        after_turn(g).who_play == (if g.board.number_of_half_moves % 2 == 0 {
            Color::White
        } else {
            Color::Black
        }),
{
}

/// A click with nothing selected never changes the board.
pub proof fn law_selection_keeps_board(g: GameView, index: usize)
    requires
        g.selected is None,
    ensures
        after_click(g, index).board == g.board,
{
}

/// A ray whose offsets all fit around a square is walked within `isize`.
pub proof fn lemma_ray_fits_in_range(squares: Seq<Option<Piece>>, file: int, rank: int, row: Seq<(isize, isize)>)
    requires
        forall|k: int|
            0 <= k < row.len() ==> {
                &&& isize::MIN <= file + (#[trigger] row[k]).0 <= isize::MAX
                &&& isize::MIN <= rank + row[k].1 <= isize::MAX
            },
    ensures
        ray_in_range(squares, file, rank, row),
    decreases row.len(),
{
    if row.len() > 0 {
        assert forall|k: int| 0 <= k < row.drop_first().len() implies {
            &&& isize::MIN <= file + (#[trigger] row.drop_first()[k]).0 <= isize::MAX
            &&& isize::MIN <= rank + row.drop_first()[k].1 <= isize::MAX
        } by {
            assert(row.drop_first()[k] == row[k + 1]);
        }
        lemma_ray_fits_in_range(squares, file, rank, row.drop_first());
    }
}

/// A table whose offsets all fit around square `index` is walked within
/// `isize` from there, whatever stands on the board.
pub proof fn lemma_fits_in_range<const T: usize, const N: usize>(
    squares: Seq<Option<Piece>>,
    t: [[(isize, isize); T]; N],
    index: usize,
)
    requires
        table_fits(t, index),
    ensures
        table_in_range(squares, (index % 8) as int, (index / 8) as int, table_view(t)),
{
    assert forall|j: int| 0 <= j < table_view(t).len() implies ray_in_range(
        squares,
        (index % 8) as int,
        (index / 8) as int,
        #[trigger] table_view(t)[j],
    ) by {
        let row = table_view(t)[j];
        assert(row == t@[j]@);
        assert forall|k: int| 0 <= k < row.len() implies {
            &&& isize::MIN <= (index % 8) as int + (#[trigger] row[k]).0 <= isize::MAX
            &&& isize::MIN <= (index / 8) as int + row[k].1 <= isize::MAX
        } by {
            assert(row[k] == t@[j]@[k]);
        }
        lemma_ray_fits_in_range(squares, (index % 8) as int, (index / 8) as int, row);
    }
}

/// The entries behind the squares of a ray, in increasing order, are exactly
/// its reached entries.
pub proof fn lemma_ray_entries(
    squares: Seq<Option<Piece>>,
    file: int,
    rank: int,
    row: Seq<(isize, isize)>,
    color: Color,
) -> (idx: Seq<int>)
    ensures
        idx.len() == ray_targets(squares, file, rank, row, color).len(),
        forall|m: int|
            0 <= m < idx.len() ==> entry_reached(squares, file, rank, row, #[trigger] idx[m], color)
                && ray_targets(squares, file, rank, row, color)[m] as int == offset_square(
                file,
                rank,
                row[idx[m]],
            ),
        forall|m1: int, m2: int| 0 <= m1 < m2 < idx.len() ==> #[trigger] idx[m1] < #[trigger] idx[m2],
        forall|k: int| #[trigger] entry_reached(squares, file, rank, row, k, color) ==> idx.contains(k),
    decreases row.len(),
{
    if row.len() == 0 {
        Seq::empty()
    } else {
        let rest = row.drop_first();
        let ridx = lemma_ray_entries(squares, file, rank, rest, color);
        let shifted = ridx.map_values(|k: int| k + 1);
        let d = row[0];
        let t = offset_square(file, rank, d);
        // entries after the first relate to the entries of the rest
        assert forall|k: int| 0 <= k < rest.len() implies (entry_reached(squares, file, rank, row, k + 1, color)
            <==> ((!offset_on_board(file, rank, d) || squares[t] is None) && entry_reached(
            squares,
            file,
            rank,
            rest,
            k,
            color,
        ))) by {
            assert(row[k + 1] == rest[k]);
            if entry_reached(squares, file, rank, row, k + 1, color) {
                assert(row[0] == d);
                assert forall|k2: int| 0 <= k2 < k && offset_on_board(file, rank, #[trigger] rest[k2]) implies squares[offset_square(file, rank, rest[k2])] is None by {
                    assert(rest[k2] == row[k2 + 1]);
                }
            }
            if (!offset_on_board(file, rank, d) || squares[t] is None) && entry_reached(squares, file, rank, rest, k, color) {
                assert forall|k2: int| 0 <= k2 < k + 1 && offset_on_board(file, rank, #[trigger] row[k2]) implies squares[offset_square(file, rank, row[k2])] is None by {
                    if k2 > 0 {
                        assert(rest[k2 - 1] == row[k2]);
                    }
                }
            }
        }
        let r = ray_targets(squares, file, rank, row, color);
        let rr = ray_targets(squares, file, rank, rest, color);
        if !offset_on_board(file, rank, d) {
            assert forall|k: int| #[trigger] entry_reached(squares, file, rank, row, k, color) implies shifted.contains(k) by {
                assert(k != 0);
                assert(entry_reached(squares, file, rank, rest, k - 1, color));
                let m = choose|m: int| 0 <= m < ridx.len() && ridx[m] == k - 1;
                assert(shifted[m] == k);
            }
            assert forall|m: int| 0 <= m < shifted.len() implies entry_reached(squares, file, rank, row, #[trigger] shifted[m], color)
                && r[m] as int == offset_square(file, rank, row[shifted[m]]) by {
                assert(entry_reached(squares, file, rank, rest, ridx[m], color));
                assert(row[ridx[m] + 1] == rest[ridx[m]]);
            }
            assert forall|m1: int, m2: int| 0 <= m1 < m2 < shifted.len() implies #[trigger] shifted[m1] < #[trigger] shifted[m2] by {
                assert(ridx[m1] < ridx[m2]);
            }
            shifted
        } else if squares[t] is None {
            let idx = seq![0int] + shifted;
            assert(entry_reached(squares, file, rank, row, 0, color));
            assert(r =~= seq![t as usize] + rr);
            assert forall|k: int| #[trigger] entry_reached(squares, file, rank, row, k, color) implies idx.contains(k) by {
                if k == 0 {
                    assert(idx[0] == 0);
                } else {
                    assert(entry_reached(squares, file, rank, rest, k - 1, color));
                    let m = choose|m: int| 0 <= m < ridx.len() && ridx[m] == k - 1;
                    assert(idx[m + 1] == k);
                }
            }
            assert forall|m: int| 0 <= m < idx.len() implies entry_reached(squares, file, rank, row, #[trigger] idx[m], color)
                && r[m] as int == offset_square(file, rank, row[idx[m]]) by {
                if m > 0 {
                    assert(idx[m] == ridx[m - 1] + 1);
                    assert(entry_reached(squares, file, rank, rest, ridx[m - 1], color));
                    assert(row[ridx[m - 1] + 1] == rest[ridx[m - 1]]);
                    assert(r[m] == rr[m - 1]);
                }
            }
            assert forall|m1: int, m2: int| 0 <= m1 < m2 < idx.len() implies #[trigger] idx[m1] < #[trigger] idx[m2] by {
                if m1 > 0 {
                    assert(ridx[m1 - 1] < ridx[m2 - 1]);
                } else {
                    assert(ridx[m2 - 1] >= 0);
                }
            }
            idx
        } else if is_enemy(squares[t], color) {
            let idx = seq![0int];
            assert(entry_reached(squares, file, rank, row, 0, color));
            assert forall|k: int| #[trigger] entry_reached(squares, file, rank, row, k, color) implies idx.contains(k) by {
                if k > 0 {
                    assert(offset_on_board(file, rank, row[0]));
                }
                assert(idx[0] == 0);
            }
            idx
        } else {
            assert forall|k: int| #[trigger] entry_reached(squares, file, rank, row, k, color) implies false by {
                if k > 0 {
                    assert(offset_on_board(file, rank, row[0]));
                }
            }
            Seq::empty()
        }
    }
}

/// The entries behind the squares reached along a table, in table order, are
/// exactly its reached entries.
pub proof fn lemma_table_entries(
    squares: Seq<Option<Piece>>,
    file: int,
    rank: int,
    table: Seq<Seq<(isize, isize)>>,
    color: Color,
) -> (idx: Seq<(int, int)>)
    ensures
        enumerates_reached(squares, file, rank, table, color, table_targets(squares, file, rank, table, color), idx),
    decreases table.len(),
{
    if table.len() == 0 {
        Seq::empty()
    } else {
        let prev = table.drop_last();
        let j = table.len() - 1;
        let last = table.last();
        let pidx = lemma_table_entries(squares, file, rank, prev, color);
        let ridx = lemma_ray_entries(squares, file, rank, last, color);
        let tail = ridx.map_values(|k: int| (j, k));
        let idx = pidx + tail;
        let pres = table_targets(squares, file, rank, prev, color);
        let rres = ray_targets(squares, file, rank, last, color);
        let res = table_targets(squares, file, rank, table, color);
        assert(res == pres + rres);
        assert forall|m: int| 0 <= m < idx.len() implies {
            &&& 0 <= (#[trigger] idx[m]).0 < table.len()
            &&& entry_reached(squares, file, rank, table[idx[m].0], idx[m].1, color)
            &&& res[m] as int == offset_square(file, rank, table[idx[m].0][idx[m].1])
        } by {
            if m < pidx.len() {
                assert(idx[m] == pidx[m]);
                assert(prev[pidx[m].0] == table[pidx[m].0]);
                assert(res[m] == pres[m]);
            } else {
                let mm = m - pidx.len();
                assert(idx[m] == (j, ridx[mm]));
                assert(res[m] == rres[mm]);
            }
        }
        assert forall|m1: int, m2: int| 0 <= m1 < m2 < idx.len() implies (#[trigger] idx[m1]).0 < (#[trigger] idx[m2]).0 || (idx[m1].0
            == idx[m2].0 && idx[m1].1 < idx[m2].1) by {
            if m2 < pidx.len() {
                assert(idx[m1] == pidx[m1] && idx[m2] == pidx[m2]);
            } else if m1 < pidx.len() {
                assert(idx[m1] == pidx[m1]);
                assert(0 <= pidx[m1].0 < prev.len());
                assert(idx[m2] == (j, ridx[m2 - pidx.len()]));
            } else {
                assert(idx[m1] == (j, ridx[m1 - pidx.len()]));
                assert(idx[m2] == (j, ridx[m2 - pidx.len()]));
                assert(ridx[m1 - pidx.len()] < ridx[m2 - pidx.len()]);
            }
        }
        assert forall|jj: int, k: int|
            0 <= jj < table.len() && #[trigger] entry_reached(squares, file, rank, table[jj], k, color)
            implies idx.contains((jj, k)) by {
            if jj < j {
                assert(prev[jj] == table[jj]);
                assert(pidx.contains((jj, k)));
                let m = choose|m: int| 0 <= m < pidx.len() && pidx[m] == (jj, k);
                assert(idx[m] == (jj, k));
            } else {
                assert(ridx.contains(k));
                let m = choose|m: int| 0 <= m < ridx.len() && ridx[m] == k;
                assert(idx[pidx.len() + m] == (jj, k));
            }
        }
        idx
    }
}

/// A strictly increasing sequence of entries of a ray of length `n` has at
/// most `n` elements.
proof fn lemma_increasing_len(idx: Seq<int>, n: int)
    requires
        n >= 0,
        forall|m: int| 0 <= m < idx.len() ==> 0 <= #[trigger] idx[m] < n,
        forall|m1: int, m2: int| 0 <= m1 < m2 < idx.len() ==> #[trigger] idx[m1] < #[trigger] idx[m2],
    ensures
        idx.len() <= n,
    decreases idx.len(),
{
    if idx.len() > 0 {
        let d = idx.drop_last();
        assert forall|m1: int, m2: int| 0 <= m1 < m2 < d.len() implies #[trigger] d[m1] < #[trigger] d[m2] by {
            assert(idx[m1] < idx[m2]);
        }
        assert forall|m: int| 0 <= m < d.len() implies 0 <= #[trigger] d[m] < idx.last() by {
            assert(idx[m] < idx[idx.len() - 1]);
        }
        lemma_increasing_len(d, idx.last());
        assert(idx[idx.len() - 1] < n);
    }
}

/// At most one square per table entry is reached.
pub proof fn lemma_table_targets_len(
    squares: Seq<Option<Piece>>,
    file: int,
    rank: int,
    table: Seq<Seq<(isize, isize)>>,
    color: Color,
    width: int,
)
    requires
        width >= 0,
        forall|j: int| 0 <= j < table.len() ==> (#[trigger] table[j]).len() <= width,
    ensures
        table_targets(squares, file, rank, table, color).len() <= table.len() * width,
    decreases table.len(),
{
    if table.len() > 0 {
        let prev = table.drop_last();
        assert forall|j: int| 0 <= j < prev.len() implies (#[trigger] prev[j]).len() <= width by {
            assert(prev[j] == table[j]);
        }
        lemma_table_targets_len(squares, file, rank, prev, color, width);
        let ridx = lemma_ray_entries(squares, file, rank, table.last(), color);
        lemma_increasing_len(ridx, table.last().len() as int);
        assert(table.last().len() <= width);
        assert(prev.len() * width + width == table.len() * width) by (nonlinear_arith)
            requires
                prev.len() + 1 == table.len(),
        ;
    }
}

/// What a move table gives, entry by entry: the squares appended by
/// `helper_check_legal_move` are, in table order, the squares of exactly the
/// reached entries (on the board, every on-board square named before in the
/// same ray empty, the square itself empty or holding an enemy); each is the
/// origin moved by its entry's offset, and there are at most `N * T` of them.
pub proof fn law_table_moves_by_entry<const T: usize, const N: usize>(
    squares: Seq<Option<Piece>>,
    index: usize,
    t: [[(isize, isize); T]; N],
    color: Color,
)
    ensures
        ({
            let file = (index % 8) as int;
            let rank = (index / 8) as int;
            let res = table_targets(squares, file, rank, table_view(t), color);
            &&& exists|idx: Seq<(int, int)>| enumerates_reached(squares, file, rank, table_view(t), color, res, idx)
            &&& res.len() <= N * T
            &&& forall|m: int| 0 <= m < res.len() ==> {
                &&& #[trigger] res[m] < 64
                &&& exists|j: int, k: int|
                    0 <= j < N && 0 <= k < T && res[m] % 8 == file + t@[j]@[k].0 && res[m] / 8 == rank
                        + t@[j]@[k].1
                &&& (squares[res[m] as int] is None || is_enemy(squares[res[m] as int], color))
            }
        }),
{
    let file = (index % 8) as int;
    let rank = (index / 8) as int;
    let table = table_view(t);
    let res = table_targets(squares, file, rank, table, color);
    let idx = lemma_table_entries(squares, file, rank, table, color);
    assert forall|j: int| 0 <= j < table.len() implies (#[trigger] table[j]).len() <= T by {}
    lemma_table_targets_len(squares, file, rank, table, color, T as int);
    assert forall|m: int| 0 <= m < res.len() implies {
        &&& #[trigger] res[m] < 64
        &&& exists|j: int, k: int|
            0 <= j < N && 0 <= k < T && res[m] % 8 == file + t@[j]@[k].0 && res[m] / 8 == rank
                + t@[j]@[k].1
        &&& (squares[res[m] as int] is None || is_enemy(squares[res[m] as int], color))
    } by {
        let (j, k) = idx[m];
        assert(entry_reached(squares, file, rank, table[j], k, color));
        assert(table[j] == t@[j]@);
        let d = t@[j]@[k];
        assert(table[j][k] == d);
        assert(on_board(file + d.0, rank + d.1));
        assert(res[m] as int == (rank + d.1) * 8 + file + d.0);
        assert(res[m] % 8 == file + d.0 && res[m] / 8 == rank + d.1);
    }
}

/// Two on-board squares named from the same origin are the same exactly when
/// the offsets are.
proof fn lemma_offset_injective(file: int, rank: int, d: (isize, isize), e: (isize, isize))
    requires
        offset_on_board(file, rank, d),
        offset_on_board(file, rank, e),
        offset_square(file, rank, d) == offset_square(file, rank, e),
    ensures
        d == e,
{
}

/// With distinct non-null entries, the squares reached along a table from a
/// board square are distinct and never the origin.
pub proof fn lemma_table_targets_distinct<const T: usize, const N: usize>(
    squares: Seq<Option<Piece>>,
    index: int,
    t: [[(isize, isize); T]; N],
    color: Color,
)
    requires
        0 <= index < 64,
        table_distinct(t),
    ensures
        table_targets(squares, index % 8, index / 8, table_view(t), color).no_duplicates(),
        !table_targets(squares, index % 8, index / 8, table_view(t), color).contains(index as usize),
{
    let file = index % 8;
    let rank = index / 8;
    let table = table_view(t);
    let res = table_targets(squares, file, rank, table, color);
    let idx = lemma_table_entries(squares, file, rank, table, color);
    assert forall|m1: int, m2: int| 0 <= m1 < res.len() && 0 <= m2 < res.len() && m1 != m2 implies res[m1] != res[m2] by {
        let (a1, b1) = (if m1 < m2 { m1 } else { m2 }, if m1 < m2 { m2 } else { m1 });
        let (j1, k1) = idx[a1];
        let (j2, k2) = idx[b1];
        assert(j1 < j2 || (j1 == j2 && k1 < k2));
        assert(entry_reached(squares, file, rank, table[j1], k1, color));
        assert(entry_reached(squares, file, rank, table[j2], k2, color));
        assert(table[j1] == t@[j1]@ && table[j2] == t@[j2]@);
        if res[a1] == res[b1] {
            lemma_offset_injective(file, rank, t@[j1]@[k1], t@[j2]@[k2]);
        }
    }
    assert forall|m: int| 0 <= m < res.len() implies res[m] != index as usize by {
        let (j, k) = idx[m];
        assert(entry_reached(squares, file, rank, table[j], k, color));
        assert(table[j] == t@[j]@);
        let d = t@[j]@[k];
        assert(d != (0isize, 0isize));
        assert(index == rank * 8 + file);
    }
}

/// Pseudo-legal moves never repeat a square and never name the piece's own
/// square.
pub proof fn law_moves_distinct(b: BoardView, index: int)
    requires
        0 <= index < 64,
        b.squares.len() == 64,
    ensures
        pseudo_moves(b, index).no_duplicates(),
        !pseudo_moves(b, index).contains(index as usize),
{
    let sq = b.squares;
    let file = index % 8;
    let rank = index / 8;
    lemma_tables_distinct();
    if let Some(p) = sq[index] {
        lemma_table_targets_distinct(sq, index, KNIGHT_MOVES, p.color);
        lemma_table_targets_distinct(sq, index, KING_MOVES, p.color);
        lemma_table_targets_distinct(sq, index, ROOK_MOVES, p.color);
        lemma_table_targets_distinct(sq, index, BISHOP_MOVES, p.color);
        lemma_table_targets_distinct(sq, index, QUEEN_MOVES, p.color);
        let pm = pseudo_moves(b, index);
        if p.kind == PieceType::Pawn {
            let adv = pawn_advance_targets(sq, file, rank, p.color);
            let l = pawn_capture_target(sq, file, rank, p.color, -1);
            let r = pawn_capture_target(sq, file, rank, p.color, 1);
            assert(pm == adv + l + r);
            assert(index == rank * 8 + file);
            assert forall|m1: int, m2: int| 0 <= m1 < pm.len() && 0 <= m2 < pm.len() && m1 != m2 implies pm[m1] != pm[m2] by {
                if m1 < adv.len() {
                    assert(pm[m1] == adv[m1]);
                } else if m1 < adv.len() + l.len() {
                    assert(pm[m1] == l[m1 - adv.len()]);
                } else {
                    assert(pm[m1] == r[m1 - adv.len() - l.len()]);
                }
                if m2 < adv.len() {
                    assert(pm[m2] == adv[m2]);
                } else if m2 < adv.len() + l.len() {
                    assert(pm[m2] == l[m2 - adv.len()]);
                } else {
                    assert(pm[m2] == r[m2 - adv.len() - l.len()]);
                }
            }
            assert forall|m: int| 0 <= m < pm.len() implies pm[m] != index as usize by {
                if m < adv.len() {
                    assert(pm[m] == adv[m]);
                } else if m < adv.len() + l.len() {
                    assert(pm[m] == l[m - adv.len()]);
                } else {
                    assert(pm[m] == r[m - adv.len() - l.len()]);
                }
            }
        } else if p.kind == PieceType::King {
            let pt = piece_table_targets(sq, index, p.kind, p.color);
            let ct = castle_targets(b, index, p.color);
            let kidx = lemma_table_entries(sq, file, rank, table_view(KING_MOVES), p.color);
            lemma_king_steps();
            assert(pm == pt + ct);
            // a king step never reaches a rook corner two or more files away
            assert forall|m: int| 0 <= m < pt.len() implies (index == 60 ==> pt[m] != 63 && pt[m] != 56) && (index == 4
                ==> pt[m] != 7 && pt[m] != 0) by {
                let (j, k) = kidx[m];
                assert(entry_reached(sq, file, rank, table_view(KING_MOVES)[j], k, p.color));
                assert(table_view(KING_MOVES)[j] == KING_MOVES@[j]@);
                assert(k == 0);
                let d = KING_MOVES@[j]@[0];
                assert(-1 <= d.0 <= 1);
            }
            assert forall|m1: int, m2: int| 0 <= m1 < pm.len() && 0 <= m2 < pm.len() && m1 != m2 implies pm[m1] != pm[m2] by {
                if m1 < pt.len() && m2 < pt.len() {
                    assert(pm[m1] == pt[m1] && pm[m2] == pt[m2]);
                } else if m1 >= pt.len() && m2 >= pt.len() {
                    assert(pm[m1] == ct[m1 - pt.len()] && pm[m2] == ct[m2 - pt.len()]);
                } else if m1 < pt.len() {
                    assert(pm[m1] == pt[m1] && pm[m2] == ct[m2 - pt.len()]);
                } else {
                    assert(pm[m2] == pt[m2] && pm[m1] == ct[m1 - pt.len()]);
                }
            }
            assert forall|m: int| 0 <= m < pm.len() implies pm[m] != index as usize by {
                if m < pt.len() {
                    assert(pm[m] == pt[m]);
                    assert(!pt.contains(index as usize));
                } else {
                    assert(pm[m] == ct[m - pt.len()]);
                }
            }
        } else {
            assert(pm == piece_table_targets(sq, index, p.kind, p.color));
        }
    }
}

} // verus!
