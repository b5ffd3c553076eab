use vstd::prelude::*;

use crate::board::{with_piece, BoardView};
use crate::fen::{ascii_lower_code, fen_ok, fen_piece, fen_run, fen_start, fen_step, is_digit, FenState};

verus! {

/// The number of spaces in `cs`.
pub open spec fn count_spaces(cs: Seq<char>) -> int
    decreases cs.len(),
{
    if cs.len() == 0 {
        0
    } else {
        count_spaces(cs.drop_last()) + if cs.last() == ' ' {
            1int
        } else {
            0int
        }
    }
}

/// Position `m` of `cs` holds a character of field `f` (fields are separated
/// by single spaces and counted from 0).
pub open spec fn in_field(cs: Seq<char>, m: int, f: int) -> bool {
    0 <= m < cs.len() && cs[m] != ' ' && count_spaces(cs.take(m)) == f
}

/// Position `m` holds the last character of field `f`.
pub open spec fn last_in_field(cs: Seq<char>, m: int, f: int) -> bool {
    in_field(cs, m, f) && forall|m2: int| m < m2 < cs.len() ==> !#[trigger] in_field(cs, m2, f)
}

/// Position `m` holds a side letter ('w' or 'b') of the second field.
pub open spec fn side_letter(cs: Seq<char>, m: int) -> bool {
    in_field(cs, m, 1) && (cs[m] == 'w' || cs[m] == 'b')
}

/// Position `m` holds the last side letter of the second field.
pub open spec fn last_side_letter(cs: Seq<char>, m: int) -> bool {
    side_letter(cs, m) && forall|m2: int| m < m2 < cs.len() ==> !#[trigger] side_letter(cs, m2)
}

/// The third field holds `letter`.
pub open spec fn letter_in_field(cs: Seq<char>, letter: char, f: int) -> bool {
    exists|m: int| #[trigger] in_field(cs, m, f) && cs[m] == letter
}

/// Position `m` holds a character read as piece placement: it is not a space
/// and stands in field 0 or in a field after the sixth.
pub open spec fn placement_char(cs: Seq<char>, m: int) -> bool {
    0 <= m < cs.len() && cs[m] != ' ' && !(1 <= count_spaces(cs.take(m)) <= 5)
}

/// The placement cursor after `cs`: the sum, over its placement characters,
/// of a digit's value and of 1 for each piece letter.
pub open spec fn cursor(cs: Seq<char>) -> int
    decreases cs.len(),
{
    if cs.len() == 0 {
        0
    } else {
        let c = cs.last();
        cursor(cs.drop_last()) + if placement_char(cs, cs.len() - 1) {
            if is_digit(c) {
                c as int - '0' as int
            } else if fen_piece(c) is Some {
                1int
            } else {
                0int
            }
        } else {
            0int
        }
    }
}

/// The piece letter at position `m` is placed on square `j`.
pub open spec fn placed_at(cs: Seq<char>, m: int, j: int) -> bool {
    placement_char(cs, m) && fen_piece(cs[m]) is Some && cursor(cs.take(m)) == j
}

/// Positions before the last keep their field and placement reading when a
/// character is appended.
proof fn lemma_prefix_positions(cs: Seq<char>, m: int)
    requires
        cs.len() > 0,
        0 <= m < cs.len() - 1,
    ensures
        cs.take(m) == cs.drop_last().take(m),
        cs[m] == cs.drop_last()[m],
        forall|f: int| in_field(cs, m, f) == in_field(cs.drop_last(), m, f),
        placement_char(cs, m) == placement_char(cs.drop_last(), m),
{
    assert(cs.take(m) =~= cs.drop_last().take(m));
}

/// The reading counts the spaces it reads.
pub proof fn lemma_run_spaces(st: FenState, cs: Seq<char>)
    ensures
        fen_run(st, cs).spaces == st.spaces + count_spaces(cs),
    decreases cs.len(),
{
    if cs.len() > 0 {
        lemma_run_spaces(st, cs.drop_last());
    }
}

/// The last position of a non-empty text is in field `f` exactly when it is
/// not a space and the text before it has `f` spaces.
proof fn lemma_last_position(cs: Seq<char>, f: int)
    requires
        cs.len() > 0,
    ensures
        in_field(cs, cs.len() - 1, f) == (cs.last() != ' ' && count_spaces(cs.drop_last()) == f),
        placement_char(cs, cs.len() - 1) == (cs.last() != ' ' && !(1 <= count_spaces(cs.drop_last()) <= 5)),
{
    assert(cs.take(cs.len() - 1) =~= cs.drop_last());
}

/// How the last character of a field, and the emptiness of a field, change
/// when a character is appended.
proof fn lemma_last_field_step(cs: Seq<char>, f: int)
    requires
        cs.len() > 0,
    ensures
        in_field(cs, cs.len() - 1, f) ==> forall|m: int| #[trigger] last_in_field(cs, m, f) ==> m == cs.len() - 1,
        in_field(cs, cs.len() - 1, f) ==> last_in_field(cs, cs.len() - 1, f),
        !in_field(cs, cs.len() - 1, f) ==> forall|m: int| #[trigger] last_in_field(cs, m, f) ==> last_in_field(
            cs.drop_last(),
            m,
            f,
        ),
        (forall|m: int| !#[trigger] in_field(cs, m, f)) ==> (forall|m: int| !#[trigger] in_field(cs.drop_last(), m, f)),
{
    let p = cs.drop_last();
    let n = p.len() as int;
    if in_field(cs, n, f) {
        assert forall|m: int| #[trigger] last_in_field(cs, m, f) implies m == n by {
            if m < n {
                assert(!in_field(cs, n, f));
            }
        }
    } else {
        assert forall|m: int| #[trigger] last_in_field(cs, m, f) implies last_in_field(p, m, f) by {
            lemma_prefix_positions(cs, m);
            assert forall|m2: int| m < m2 < p.len() implies !#[trigger] in_field(p, m2, f) by {
                lemma_prefix_positions(cs, m2);
                assert(!in_field(cs, m2, f));
            }
        }
    }
    if forall|m: int| !#[trigger] in_field(cs, m, f) {
        assert forall|m: int| !#[trigger] in_field(p, m, f) by {
            if 0 <= m < n {
                lemma_prefix_positions(cs, m);
                assert(!in_field(cs, m, f));
            }
        }
    }
}

/// Castling rights come exactly from the letters of the third field: 'K'
/// White short, 'Q' White long, 'k' Black short, 'q' Black long; the rights of
/// the input board are discarded.
pub proof fn law_fen_castling_rights(b: BoardView, cs: Seq<char>)
    ensures
        fen_run(fen_start(b), cs).board.can_rook_white_small == letter_in_field(cs, 'K', 2),
        fen_run(fen_start(b), cs).board.can_rook_white_big == letter_in_field(cs, 'Q', 2),
        fen_run(fen_start(b), cs).board.can_rook_black_small == letter_in_field(cs, 'k', 2),
        fen_run(fen_start(b), cs).board.can_rook_black_big == letter_in_field(cs, 'q', 2),
    decreases cs.len(),
{
    if cs.len() > 0 {
        let p = cs.drop_last();
        let c = cs.last();
        let n = p.len() as int;
        law_fen_castling_rights(b, p);
        lemma_run_spaces(fen_start(b), p);
        lemma_last_position(cs, 2);
        assert forall|letter: char| letter_in_field(cs, letter, 2) == (letter_in_field(p, letter, 2) || (c
            == letter && c != ' ' && count_spaces(p) == 2)) by {
            if letter_in_field(cs, letter, 2) {
                let m = choose|m: int| #[trigger] in_field(cs, m, 2) && cs[m] == letter;
                if m < n {
                    lemma_prefix_positions(cs, m);
                    assert(in_field(p, m, 2) && p[m] == letter);
                }
            }
            if letter_in_field(p, letter, 2) {
                let m = choose|m: int| #[trigger] in_field(p, m, 2) && p[m] == letter;
                lemma_prefix_positions(cs, m);
                assert(in_field(cs, m, 2) && cs[m] == letter);
            }
            if c == letter && c != ' ' && count_spaces(p) == 2 {
                assert(in_field(cs, n, 2) && cs[n] == letter);
            }
        }
    }
}

/// The side to move comes from the last 'w' or 'b' of the second field, and
/// is the input board's when that field has none.
pub proof fn law_fen_side_to_move(b: BoardView, cs: Seq<char>)
    ensures
        forall|m: int|
            #[trigger] last_side_letter(cs, m) ==> fen_run(fen_start(b), cs).board.white_play == (cs[m] == 'w')
                && fen_run(fen_start(b), cs).board.black_play == (cs[m] == 'b'),
        (forall|m: int| !#[trigger] side_letter(cs, m)) ==> fen_run(fen_start(b), cs).board.white_play
            == b.white_play && fen_run(fen_start(b), cs).board.black_play == b.black_play,
    decreases cs.len(),
{
    if cs.len() > 0 {
        let p = cs.drop_last();
        let c = cs.last();
        let n = p.len() as int;
        law_fen_side_to_move(b, p);
        lemma_run_spaces(fen_start(b), p);
        lemma_last_position(cs, 1);
        let r = fen_run(fen_start(b), cs).board;
        if side_letter(cs, n) {
            assert forall|m: int| #[trigger] last_side_letter(cs, m) implies r.white_play == (cs[m] == 'w')
                && r.black_play == (cs[m] == 'b') by {
                if m < n {
                    assert(!side_letter(cs, n));
                }
            }
            assert(!(forall|m: int| !#[trigger] side_letter(cs, m)));
        } else {
            assert forall|m: int| #[trigger] last_side_letter(cs, m) implies r.white_play == (cs[m] == 'w')
                && r.black_play == (cs[m] == 'b') by {
                lemma_prefix_positions(cs, m);
                assert forall|m2: int| m < m2 < p.len() implies !#[trigger] side_letter(p, m2) by {
                    lemma_prefix_positions(cs, m2);
                    assert(!side_letter(cs, m2));
                }
                assert(last_side_letter(p, m));
            }
            if forall|m: int| !#[trigger] side_letter(cs, m) {
                assert forall|m: int| !#[trigger] side_letter(p, m) by {
                    if 0 <= m < n {
                        lemma_prefix_positions(cs, m);
                        assert(!side_letter(cs, m));
                    }
                }
            }
        }
    }
}

/// The half-move counter is the (lower-cased) code of the last character of
/// the fifth field, and the move counter that of the sixth; each keeps the
/// input board's value when its field is empty. For a digit the half-move
/// counter has the digit's parity.
pub proof fn law_fen_counters(b: BoardView, cs: Seq<char>)
    ensures
        forall|m: int|
            #[trigger] last_in_field(cs, m, 4) ==> fen_run(fen_start(b), cs).board.number_of_half_moves
                == ascii_lower_code(cs[m]),
        forall|m: int|
            #[trigger] last_in_field(cs, m, 4) && is_digit(cs[m]) ==> fen_run(
                fen_start(b),
                cs,
            ).board.number_of_half_moves % 2 == (cs[m] as int - '0' as int) % 2,
        (forall|m: int| !#[trigger] in_field(cs, m, 4)) ==> fen_run(fen_start(b), cs).board.number_of_half_moves
            == b.number_of_half_moves,
        forall|m: int|
            #[trigger] last_in_field(cs, m, 5) ==> fen_run(fen_start(b), cs).board.number_of_moves
                == ascii_lower_code(cs[m]),
        (forall|m: int| !#[trigger] in_field(cs, m, 5)) ==> fen_run(fen_start(b), cs).board.number_of_moves
            == b.number_of_moves,
    decreases cs.len(),
{
    if cs.len() > 0 {
        let p = cs.drop_last();
        let c = cs.last();
        let n = p.len() as int;
        law_fen_counters(b, p);
        lemma_run_spaces(fen_start(b), p);
        lemma_last_position(cs, 4);
        lemma_last_position(cs, 5);
        lemma_last_field_step(cs, 4);
        lemma_last_field_step(cs, 5);
        let r = fen_run(fen_start(b), cs).board;
        assert forall|m: int| #[trigger] last_in_field(cs, m, 4) && is_digit(cs[m]) implies r.number_of_half_moves % 2
            == (cs[m] as int - '0' as int) % 2 by {
            assert(r.number_of_half_moves == ascii_lower_code(cs[m]));
        }
    }
}

/// The reading's square cursor is the placement cursor of the text read.
pub proof fn lemma_run_cursor(b: BoardView, cs: Seq<char>)
    ensures
        fen_run(fen_start(b), cs).next == cursor(cs),
    decreases cs.len(),
{
    if cs.len() > 0 {
        let p = cs.drop_last();
        lemma_run_cursor(b, p);
        lemma_run_spaces(fen_start(b), p);
        lemma_last_position(cs, 0);
    }
}

/// The placement cursor is never negative.
proof fn lemma_cursor_nonneg(cs: Seq<char>)
    ensures
        cursor(cs) >= 0,
    decreases cs.len(),
{
    if cs.len() > 0 {
        lemma_cursor_nonneg(cs.drop_last());
    }
}

/// The placement cursor never moves back along a text.
proof fn lemma_cursor_monotone(cs: Seq<char>, m: int, n: int)
    requires
        0 <= m <= n <= cs.len(),
    ensures
        cursor(cs.take(m)) <= cursor(cs.take(n)),
    decreases n - m,
{
    if m < n {
        lemma_cursor_monotone(cs, m, n - 1);
        let t = cs.take(n);
        assert(t.drop_last() =~= cs.take(n - 1));
        assert(t.last() == cs[n - 1]);
    }
}

/// Reading a piece letter at `m` moves the cursor one square on.
proof fn lemma_cursor_after_piece(cs: Seq<char>, m: int)
    requires
        placement_char(cs, m),
        fen_piece(cs[m]) is Some,
    ensures
        cursor(cs.take(m + 1)) == cursor(cs.take(m)) + 1,
{
    let t = cs.take(m + 1);
    assert(t.drop_last() =~= cs.take(m));
    assert(t.take(m) =~= cs.take(m));
    assert(placement_char(t, m));
    assert(!is_digit(cs[m]));
}

/// Where FEN letters land: a square on which a piece letter of a placement
/// field is read gets that letter's piece (the cursor only moves on, so at
/// most one letter lands on a square), and a square on which no letter lands
/// keeps what the input board had.
pub proof fn law_fen_placement(b: BoardView, cs: Seq<char>, j: int)
    requires
        fen_ok(fen_start(b), cs),
        b.squares.len() == 64,
        0 <= j < 64,
    ensures
        forall|m: int| #[trigger] placed_at(cs, m, j) ==> fen_run(fen_start(b), cs).board.squares[j] == fen_piece(cs[m]),
        (forall|m: int| !#[trigger] placed_at(cs, m, j)) ==> fen_run(fen_start(b), cs).board.squares[j] == b.squares[j],
        fen_run(fen_start(b), cs).board.squares.len() == 64,
    decreases cs.len(),
{
    if cs.len() > 0 {
        let p = cs.drop_last();
        let c = cs.last();
        let n = p.len() as int;
        law_fen_placement(b, p, j);
        lemma_run_spaces(fen_start(b), p);
        lemma_run_cursor(b, p);
        lemma_last_position(cs, 0);
        assert(cs.take(n) =~= p);
        let prev = fen_run(fen_start(b), p);
        let r = fen_run(fen_start(b), cs).board;
        lemma_cursor_nonneg(p);
        assert forall|m: int| 0 <= m < n implies #[trigger] placed_at(cs, m, j) == placed_at(p, m, j) by {
            lemma_prefix_positions(cs, m);
        }
        assert(fen_ok(fen_start(b), p) && crate::fen::fen_step_ok(prev, c));
        if placed_at(cs, n, j) {
            assert(r.squares == prev.board.squares.update(j, fen_piece(c)));
            assert forall|m: int| #[trigger] placed_at(cs, m, j) implies r.squares[j] == fen_piece(cs[m]) by {
                if m < n {
                    lemma_cursor_after_piece(cs, m);
                    lemma_cursor_monotone(cs, m + 1, n);
                    assert(false);
                }
            }
        } else {
            assert(fen_ok(fen_start(b), p) && crate::fen::fen_step_ok(prev, c));
            if placement_char(cs, n) && fen_piece(c) is Some {
                assert(prev.next < 64);
                assert(prev.next != j);
                assert(r.squares == prev.board.squares.update(prev.next, fen_piece(c)));
            } else {
                assert(r.squares == prev.board.squares);
            }
            assert(r.squares.len() == 64);
            assert(r.squares[j] == prev.board.squares[j]);
            assert forall|m: int| #[trigger] placed_at(cs, m, j) implies r.squares[j] == fen_piece(cs[m]) by {
                assert(m < n);
                assert(placed_at(p, m, j));
            }
            if forall|m: int| !#[trigger] placed_at(cs, m, j) {
                assert forall|m: int| !#[trigger] placed_at(p, m, j) by {
                    if 0 <= m < n {
                        assert(!placed_at(cs, m, j));
                    }
                }
            }
        }
    }
}

/// Counter characters are stored as their character code, ASCII capitals
/// lowered first: a digit d is stored as 48 + d.
pub proof fn law_fen_counter_code(c: char)
    ensures
        ('0' <= c && c <= '9') ==> ascii_lower_code(c) == 48 + (c as int - '0' as int),
        ('A' <= c && c <= 'Z') ==> ascii_lower_code(c) == c as int + 32,
        !('A' <= c && c <= 'Z') ==> ascii_lower_code(c) == c as int,
{
}

/// In a placement field a digit moves the cursor that many squares on, a
/// piece letter one square, anything else not at all.
pub proof fn law_fen_cursor_steps(cs: Seq<char>, c: char)
    requires
        count_spaces(cs) == 0 || count_spaces(cs) > 5,
        c != ' ',
    ensures
        ('0' <= c && c <= '9') ==> cursor(cs.push(c)) == cursor(cs) + (c as int - '0' as int),
        fen_piece(c) is Some ==> cursor(cs.push(c)) == cursor(cs) + 1,
        !('0' <= c && c <= '9') && fen_piece(c) is None ==> cursor(cs.push(c)) == cursor(cs),
{
    let t = cs.push(c);
    assert(t.drop_last() =~= cs);
    assert(t.take(cs.len() as int) =~= cs);
    assert(placement_char(t, cs.len() as int));
}

} // verus!
