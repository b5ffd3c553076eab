use vstd::prelude::*;
use vstd::string::*;

use crate::board::{with_piece, Board, BoardView};
use crate::piece::{Color, Piece, PieceType};

verus! {

/// The state of a FEN reading: the board built so far, the square where the
/// next piece goes, and how many spaces (field separators) were read.
pub struct FenState {
    pub board: BoardView,
    pub next: int,
    pub spaces: int,
}

/// The character code of `c` with an ASCII capital letter turned to lower case.
pub open spec fn ascii_lower_code(c: char) -> u64 {
    if 'A' <= c && c <= 'Z' {
        (c as int + 32) as u64
    } else {
        c as u64
    }
}

/// `c` is one of the ten ASCII digits.
pub open spec fn is_digit(c: char) -> bool {
    '0' <= c && c <= '9'
}

/// The piece a FEN letter stands for: lower case for Black, upper case for White.
pub open spec fn fen_piece(c: char) -> Option<Piece> {
    let kind = if c == 'r' || c == 'R' {
        Some(PieceType::Rook)
    } else if c == 'b' || c == 'B' {
        Some(PieceType::Bishop)
    } else if c == 'n' || c == 'N' {
        Some(PieceType::Knight)
    } else if c == 'q' || c == 'Q' {
        Some(PieceType::Queen)
    } else if c == 'k' || c == 'K' {
        Some(PieceType::King)
    } else if c == 'p' || c == 'P' {
        Some(PieceType::Pawn)
    } else {
        None
    };
    match kind {
        Some(k) => Some(Piece { kind: k, color: if 'a' <= c && c <= 'z' { Color::Black } else { Color::White } }),
        None => None,
    }
}

/// Reading one character. A space starts the next field. In the second field
/// 'b' and 'w' give the side to move; in the third 'K', 'Q', 'k', 'q' grant
/// castling rights; the fourth is skipped; each character of the fifth and the
/// sixth sets the half-move and the move counter to its (lower-cased) code.
/// Anywhere else a digit skips that many squares and a piece letter puts its
/// piece on the next square.
pub open spec fn fen_step(st: FenState, c: char) -> FenState {
    let b = st.board;
    if c == ' ' {
        FenState { spaces: st.spaces + 1, ..st }
    } else if st.spaces == 1 {
        if c == 'b' {
            FenState { board: BoardView { black_play: true, white_play: false, ..b }, ..st }
        } else if c == 'w' {
            FenState { board: BoardView { black_play: false, white_play: true, ..b }, ..st }
        } else {
            st
        }
    } else if st.spaces == 2 {
        if c == 'K' {
            FenState { board: BoardView { can_rook_white_small: true, ..b }, ..st }
        } else if c == 'Q' {
            FenState { board: BoardView { can_rook_white_big: true, ..b }, ..st }
        } else if c == 'k' {
            FenState { board: BoardView { can_rook_black_small: true, ..b }, ..st }
        } else if c == 'q' {
            FenState { board: BoardView { can_rook_black_big: true, ..b }, ..st }
        } else {
            st
        }
    } else if st.spaces == 3 {
        st
    } else if st.spaces == 4 {
        FenState { board: BoardView { number_of_half_moves: ascii_lower_code(c), ..b }, ..st }
    } else if st.spaces == 5 {
        FenState { board: BoardView { number_of_moves: ascii_lower_code(c), ..b }, ..st }
    } else {
        let n = if is_digit(c) {
            st.next + (c as int - '0' as int)
        } else {
            st.next
        };
        match fen_piece(c) {
            Some(p) => FenState { board: with_piece(b, n, p), next: n + 1, ..st },
            None => FenState { next: n, ..st },
        }
    }
}

/// Reading `c` from `st` stays within the counters' ranges: the field count
/// within `i32`, the square cursor within `u8`, and a piece goes on a board square.
pub open spec fn fen_step_ok(st: FenState, c: char) -> bool {
    if c == ' ' {
        st.spaces + 1 <= i32::MAX
    } else if 1 <= st.spaces <= 5 {
        true
    } else {
        let n = if is_digit(c) {
            st.next + (c as int - '0' as int)
        } else {
            st.next
        };
        &&& n <= u8::MAX
        &&& fen_piece(c) is Some ==> n < 64
    }
}

/// The state after reading all of `cs` from `st`.
pub open spec fn fen_run(st: FenState, cs: Seq<char>) -> FenState
    decreases cs.len(),
{
    if cs.len() == 0 {
        st
    } else {
        fen_step(fen_run(st, cs.drop_last()), cs.last())
    }
}

/// Every step of reading `cs` from `st` stays within range.
pub open spec fn fen_ok(st: FenState, cs: Seq<char>) -> bool
    decreases cs.len(),
{
    cs.len() == 0 || (fen_ok(st, cs.drop_last()) && fen_step_ok(fen_run(st, cs.drop_last()), cs.last()))
}

/// Where a reading starts: the given board with every castling right removed,
/// cursor on square 0, no space read.
pub open spec fn fen_start(b: BoardView) -> FenState {
    FenState {
        board: BoardView {
            can_rook_black_big: false,
            can_rook_white_small: false,
            can_rook_white_big: false,
            can_rook_black_small: false,
            ..b
        },
        next: 0,
        spaces: 0,
    }
}

/// A reading in range stays in range on each of its prefixes.
pub proof fn lemma_fen_ok_prefix(st: FenState, cs: Seq<char>, j: int)
    requires
        fen_ok(st, cs),
        0 <= j <= cs.len(),
    ensures
        fen_ok(st, cs.take(j)),
    decreases cs.len(),
{
    if j == cs.len() {
        assert(cs.take(j) =~= cs);
    } else {
        lemma_fen_ok_prefix(st, cs.drop_last(), j);
        assert(cs.drop_last().take(j) =~= cs.take(j));
    }
}

/// The character code of `c`, ASCII capitals lowered.
fn lower_code(c: char) -> (r: u64)
    ensures
        r == ascii_lower_code(c),
{
    if 'A' <= c && c <= 'Z' {
        (c as u32 + 32) as u64
    } else {
        c as u64
    }
}

/// The piece a FEN letter stands for.
fn piece_for(c: char) -> (r: Option<Piece>)
    ensures
        r == fen_piece(c),
{
    match c {
        'r' => Some(Piece { kind: PieceType::Rook, color: Color::Black }),
        'R' => Some(Piece { kind: PieceType::Rook, color: Color::White }),
        'b' => Some(Piece { kind: PieceType::Bishop, color: Color::Black }),
        'B' => Some(Piece { kind: PieceType::Bishop, color: Color::White }),
        'n' => Some(Piece { kind: PieceType::Knight, color: Color::Black }),
        'N' => Some(Piece { kind: PieceType::Knight, color: Color::White }),
        'q' => Some(Piece { kind: PieceType::Queen, color: Color::Black }),
        'Q' => Some(Piece { kind: PieceType::Queen, color: Color::White }),
        'k' => Some(Piece { kind: PieceType::King, color: Color::Black }),
        'K' => Some(Piece { kind: PieceType::King, color: Color::White }),
        'p' => Some(Piece { kind: PieceType::Pawn, color: Color::Black }),
        'P' => Some(Piece { kind: PieceType::Pawn, color: Color::White }),
        _ => None,
    }
}

/// A reading in progress: the board, the square cursor and the field count.
struct FenCursor {
    board: Board,
    next: u8,
    spaces: i32,
}

impl FenCursor {
    spec fn state(&self) -> FenState {
        FenState { board: self.board@, next: self.next as int, spaces: self.spaces as int }
    }
}

/// Reads one placement character: a digit moves the cursor, a piece letter
/// puts its piece under the cursor and moves it on. False, with nothing
/// changed that matters, where the cursor would leave its range.
fn read_placement_char(cur: &mut FenCursor, c: char) -> (ok: bool)
    requires
        c != ' ',
        !(1 <= old(cur).spaces <= 5),
    ensures
        ok == fen_step_ok(old(cur).state(), c),
        ok ==> final(cur).state() == fen_step(old(cur).state(), c),
{
    let mut i = cur.next;
    if '0' <= c && c <= '9' {
        let d = (c as u32 - 48) as u8;
        if d > u8::MAX - i {
            return false;
        }
        i += d;
    }
    match piece_for(c) {
        Some(p) => {
            if i >= 64 {
                return false;
            }
            cur.board.set(i as usize, p);
            cur.next = i + 1;
        },
        None => {
            cur.next = i;
        },
    }
    true
}

/// Reads one character of a FEN text (see `fen_step`). False where the
/// reading would leave its counters' ranges (see `fen_step_ok`).
fn read_fen_char(cur: &mut FenCursor, c: char) -> (ok: bool)
    ensures
        ok == fen_step_ok(old(cur).state(), c),
        ok ==> final(cur).state() == fen_step(old(cur).state(), c),
{
    if c == ' ' {
        if cur.spaces == i32::MAX {
            return false;
        }
        cur.spaces += 1;
    } else if cur.spaces == 1 {
        if c == 'b' {
            cur.board.black_play = true;
            cur.board.white_play = false;
        }
        if c == 'w' {
            cur.board.black_play = false;
            cur.board.white_play = true;
        }
    } else if cur.spaces == 2 {
        if c == 'K' {
            cur.board.can_rook_white_small = true;
        }
        if c == 'Q' {
            cur.board.can_rook_white_big = true;
        }
        if c == 'k' {
            cur.board.can_rook_black_small = true;
        }
        if c == 'q' {
            cur.board.can_rook_black_big = true;
        }
    } else if cur.spaces == 3 {
    } else if cur.spaces == 4 {
        cur.board.number_of_half_moves = lower_code(c);
    } else if cur.spaces == 5 {
        cur.board.number_of_moves = lower_code(c);
    } else {
        return read_placement_char(cur, c);
    }
    true
}

/// Reads the FEN text `s` onto `board`: `None` exactly when a step would leave
/// the counters' ranges (see `fen_step_ok`), else the board read.
pub fn try_fen_to_board(board: Board, s: String) -> (r: Option<Board>)
    ensures
        r is Some <==> fen_ok(fen_start(board@), s@),
        r matches Some(b) ==> b@ == fen_run(fen_start(board@), s@).board,
{
    let ghost st0 = fen_start(board@);
    let mut b = board;
    b.can_rook_black_big = false;
    b.can_rook_white_small = false;
    b.can_rook_white_big = false;
    b.can_rook_black_small = false;
    let mut cur = FenCursor { board: b, next: 0, spaces: 0 };
    let len = s.as_str().unicode_len();
    let mut k: usize = 0;
    assert(s@.take(0) =~= Seq::<char>::empty());
    while k < len
        invariant
            k <= len,
            len == s@.len(),
            st0 == fen_start(board@),
            fen_ok(st0, s@.take(k as int)),
            fen_run(st0, s@.take(k as int)) == cur.state(),
        decreases len - k,
    {
        let c = s.as_str().get_char(k);
        assert(s@.take(k + 1).drop_last() =~= s@.take(k as int));
        assert(s@.take(k + 1).last() == c);
        if !read_fen_char(&mut cur, c) {
            proof {
                assert(!fen_ok(st0, s@.take(k + 1)));
                if fen_ok(st0, s@) {
                    lemma_fen_ok_prefix(st0, s@, k + 1);
                }
            }
            return None;
        }
        k += 1;
    }
    assert(s@.take(len as int) =~= s@);
    Some(cur.board)
}

/// Reads the FEN text `s` onto `board`. Castling rights are first removed and
/// granted again by the third field; squares the placement field does not name
/// keep what `board` had there.
pub fn fen_to_board(board: Board, s: String) -> (r: Board)
    requires
        fen_ok(fen_start(board@), s@),
    ensures
        r@ == fen_run(fen_start(board@), s@).board,
{
    match try_fen_to_board(board, s) {
        Some(b) => b,
        None => unreached(),
    }
}

} // verus!
