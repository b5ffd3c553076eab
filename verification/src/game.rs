use vstd::prelude::*;

use crate::board::{Board, BoardView};
use crate::moves::{contains_square, save_king};
use crate::piece::{Color, Piece, PieceType};
use crate::rules::{holds, safe_moves};

verus! {

/// The abstract state of a game being played by clicks.
pub struct GameView {
    pub board: BoardView,
    pub who_play: Color,
    pub selected: Option<usize>,
    pub move_pieces: Option<Seq<usize>>,
}

/// A game being played by clicks: the position, whose turn it is, the square
/// selected (if any) and the legal moves shown for it (if any).
pub struct Game {
    pub board: Board,
    pub who_play: Color,
    pub selected: Option<usize>,
    pub move_pieces: Option<Vec<usize>>,
}

impl View for Game {
    type V = GameView;

    open spec fn view(&self) -> GameView {
        GameView {
            board: self.board@,
            who_play: self.who_play,
            selected: self.selected,
            move_pieces: match self.move_pieces {
                Some(v) => Some(v@),
                None => None,
            },
        }
    }
}

/// The selected square and the shown moves are board squares.
pub open spec fn game_wf(g: GameView) -> bool {
    &&& (g.selected matches Some(s) ==> s < 64)
    &&& (g.move_pieces matches Some(m) ==> forall|t: usize| m.contains(t) ==> t < 64)
}

/// `end` is among the moves shown.
pub open spec fn move_allowed(g: GameView, end: usize) -> bool {
    g.move_pieces matches Some(m) && m.contains(end)
}

/// The squares after the piece on `start` played to `end`, when that move is
/// allowed. A king of `color` played to `rook_small` (resp. `rook_big`) is
/// put on `king_small` (resp. `king_big`) with its rook beside it on
/// `rook_small_to` (resp. `rook_big_to`) and the corner emptied.
pub open spec fn castle_squares(
    sq: Seq<Option<Piece>>,
    start: int,
    end: int,
    color: Color,
    rook_small: int,
    king_small: int,
    rook_small_to: int,
    rook_big: int,
    king_big: int,
    rook_big_to: int,
) -> Seq<Option<Piece>> {
    let king = Some(Piece { kind: PieceType::King, color });
    let rook = Some(Piece { kind: PieceType::Rook, color });
    let s1 = if end == rook_small {
        sq.update(king_small, king).update(rook_small_to, rook).update(end, None)
    } else if end == rook_big {
        sq.update(king_big, king).update(rook_big_to, rook).update(end, None)
    } else {
        sq.update(end, sq[start])
    };
    s1.update(start, None)
}

/// The board after an allowed move from `start` to `end`: a white king
/// castles towards 63 (king to 62, rook to 61) or 56 (king to 58, rook to 59)
/// and White loses both castling rights; a black king likewise towards 7 (to 6
/// and 5) or 0 (to 2 and 3) and Black loses both rights; any other piece goes
/// to `end`, replacing what stood there. `start` is emptied.
pub open spec fn board_after_move(b: BoardView, start: int, end: int) -> BoardView {
    let sq = b.squares;
    if holds(sq[start], PieceType::King, Color::White) {
        BoardView {
            squares: castle_squares(sq, start, end, Color::White, 63, 62, 61, 56, 58, 59),
            can_rook_white_big: false,
            can_rook_white_small: false,
            ..b
        }
    } else if holds(sq[start], PieceType::King, Color::Black) {
        BoardView {
            squares: castle_squares(sq, start, end, Color::Black, 7, 6, 5, 0, 2, 3),
            can_rook_black_big: false,
            can_rook_black_small: false,
            ..b
        }
    } else {
        BoardView { squares: sq.update(end, sq[start]).update(start, None), ..b }
    }
}

/// Castling rights after the piece `piece` left `start` for `end` (whether or
/// not the move was played): a rook leaving its corner, or anything arriving
/// on a corner, removes that corner's right.
pub open spec fn rights_after(b: BoardView, piece: Option<Piece>, start: int, end: int) -> BoardView {
    let b1 = if holds(piece, PieceType::Rook, Color::White) && start == 63 {
        BoardView { can_rook_white_small: false, ..b }
    } else if holds(piece, PieceType::Rook, Color::White) && start == 56 {
        BoardView { can_rook_white_big: false, ..b }
    } else if holds(piece, PieceType::Rook, Color::Black) && start == 7 {
        BoardView { can_rook_black_small: false, ..b }
    } else if holds(piece, PieceType::Rook, Color::Black) && start == 0 {
        BoardView { can_rook_black_big: false, ..b }
    } else {
        b
    };
    BoardView {
        can_rook_white_small: if end == 63 { false } else { b1.can_rook_white_small },
        can_rook_white_big: if end == 56 { false } else { b1.can_rook_white_big },
        can_rook_black_small: if end == 7 { false } else { b1.can_rook_black_small },
        can_rook_black_big: if end == 0 { false } else { b1.can_rook_black_big },
        ..b1
    }
}

/// The game after a click on square `index`.
/// - Nothing selected: a piece of the side to play is selected, and its legal
///   moves are shown unless moves are shown already; any other click does nothing.
/// - A square selected, click on it: the selection and the moves are cleared.
/// - A square selected, click elsewhere: when the target is among the moves
///   shown, the move is played (see `board_after_move`) and the selection and
///   moves are cleared; otherwise the board and the selection stay. Either way
///   castling rights are updated (see `rights_after`) and one half move is counted.
pub open spec fn after_click(g: GameView, index: usize) -> GameView {
    let b = g.board;
    match g.selected {
        None => if b.squares[index as int] matches Some(a) && a.color == g.who_play {
            GameView {
                selected: Some(index),
                move_pieces: if g.move_pieces is None {
                    Some(safe_moves(b, index as int))
                } else {
                    g.move_pieces
                },
                ..g
            }
        } else {
            g
        },
        Some(start) => if index == start {
            GameView { selected: None, move_pieces: None, ..g }
        } else {
            let allowed = move_allowed(g, index);
            let b1 = if allowed {
                board_after_move(b, start as int, index as int)
            } else {
                b
            };
            let b2 = rights_after(b1, b.squares[start as int], start as int, index as int);
            GameView {
                board: BoardView { number_of_half_moves: (b2.number_of_half_moves + 1) as u64, ..b2 },
                selected: if allowed { None } else { g.selected },
                move_pieces: if allowed { None } else { g.move_pieces },
                ..g
            }
        },
    }
}

/// A click on `index` can be handled without leaving a counter's range or the
/// board: a click with nothing selected is on a board square, and a click
/// that counts a half move finds that counter below its maximum.
pub open spec fn click_ok(g: GameView, index: usize) -> bool {
    &&& (g.selected is None ==> index < 64)
    &&& (g.selected matches Some(s) && index != s ==> g.board.number_of_half_moves < u64::MAX)
}

/// The turn after a frame: White hands over to Black once the half-move count
/// is odd, Black hands back to White once it is even, counting a new move.
pub open spec fn after_turn(g: GameView) -> GameView {
    let half = g.board.number_of_half_moves;
    if g.who_play == Color::White && half % 2 != 0 {
        GameView { who_play: Color::Black, ..g }
    } else if g.who_play == Color::Black && half % 2 == 0 {
        GameView {
            who_play: Color::White,
            board: BoardView { number_of_moves: (g.board.number_of_moves + 1) as u64, ..g.board },
            ..g
        }
    } else {
        g
    }
}

/// The turn update does not leave the move counter's range.
pub open spec fn turn_ok(g: GameView) -> bool {
    g.who_play == Color::Black && g.board.number_of_half_moves % 2 == 0 ==> g.board.number_of_moves
        < u64::MAX
}

impl Game {
    /// A game on `board`, White to play, nothing selected.
    pub fn new(board: Board) -> (g: Game)
        ensures
            g@ == (GameView { board: board@, who_play: Color::White, selected: None, move_pieces: None }),
            game_wf(g@),
    {
        Game { board, who_play: Color::White, selected: None, move_pieces: None }
    }

    /// Handles a click on square `index` (see `after_click`).
    pub fn click(&mut self, index: usize)
        requires
            game_wf(old(self)@),
            click_ok(old(self)@, index),
        ensures
            final(self)@ == after_click(old(self)@, index),
            game_wf(final(self)@),
    {
        let ghost g = self@;
        match self.selected {
            None => {
                if let Some(a) = self.board.get(index) {
                    if a.color == self.who_play {
                        self.selected = Some(index);
                        if self.move_pieces.is_none() {
                            proof {
                                crate::laws::lemma_targets_on_board(self.board@, index as int);
                            }
                            self.move_pieces = Some(save_king(self.board, index));
                        }
                    }
                }
            },
            Some(start) => {
                if index == start {
                    self.selected = None;
                    self.move_pieces = None;
                } else {
                    let piece = self.board.square[start];
                    let allowed = match &self.move_pieces {
                        Some(c) => contains_square(c, index),
                        None => false,
                    };
                    if allowed {
                        assert(index < 64);
                        play_move(&mut self.board, start, index);
                        self.selected = None;
                        self.move_pieces = None;
                    }
                    update_rights(&mut self.board, piece, start, index);
                    self.board.number_of_half_moves += 1;
                }
            },
        }
    }

    /// Hands the turn over at the end of a frame (see `after_turn`).
    pub fn update_turn(&mut self)
        requires
            turn_ok(old(self)@),
        ensures
            final(self)@ == after_turn(old(self)@),
            game_wf(old(self)@) ==> game_wf(final(self)@),
    {
        if self.who_play == Color::White && self.board.number_of_half_moves % 2 != 0 {
            self.who_play = Color::Black;
        } else if self.who_play == Color::Black && self.board.number_of_half_moves % 2 == 0 {
            self.board.number_of_moves += 1;
            self.who_play = Color::White;
        }
    }
}

/// Plays the move from `start` to `end` on `board` (see `board_after_move`).
fn play_move(board: &mut Board, start: usize, end: usize)
    requires
        start < 64,
        end < 64,
    ensures
        final(board)@ == board_after_move(old(board)@, start as int, end as int),
{
    let piece = board.square[start];
    let white_king = Some(Piece { kind: PieceType::King, color: Color::White });
    let black_king = Some(Piece { kind: PieceType::King, color: Color::Black });
    let is_white_king = match piece {
        Some(p) => p.kind == PieceType::King && p.color == Color::White,
        None => false,
    };
    let is_black_king = match piece {
        Some(p) => p.kind == PieceType::King && p.color == Color::Black,
        None => false,
    };
    if is_white_king {
        if end == 63 {
            board.square[62] = white_king;
            board.square[61] = Some(Piece { kind: PieceType::Rook, color: Color::White });
            board.square[end] = None;
        } else if end == 56 {
            board.square[58] = white_king;
            board.square[59] = Some(Piece { kind: PieceType::Rook, color: Color::White });
            board.square[end] = None;
        } else {
            board.square[end] = piece;
        }
        board.square[start] = None;
        board.can_rook_white_big = false;
        board.can_rook_white_small = false;
    } else if is_black_king {
        if end == 7 {
            board.square[6] = black_king;
            board.square[5] = Some(Piece { kind: PieceType::Rook, color: Color::Black });
            board.square[end] = None;
        } else if end == 0 {
            board.square[2] = black_king;
            board.square[3] = Some(Piece { kind: PieceType::Rook, color: Color::Black });
            board.square[end] = None;
        } else {
            board.square[end] = piece;
        }
        board.square[start] = None;
        board.can_rook_black_big = false;
        board.can_rook_black_small = false;
    } else {
        board.square[end] = piece;
        board.square[start] = None;
    }
    assert(board@.squares =~= board_after_move(old(board)@, start as int, end as int).squares);
}

/// Updates the castling rights after `piece` left `start` for `end` (see `rights_after`).
fn update_rights(board: &mut Board, piece: Option<Piece>, start: usize, end: usize)
    ensures
        final(board)@ == rights_after(old(board)@, piece, start as int, end as int),
{
    let is_white_rook = match piece {
        Some(p) => p.kind == PieceType::Rook && p.color == Color::White,
        None => false,
    };
    let is_black_rook = match piece {
        Some(p) => p.kind == PieceType::Rook && p.color == Color::Black,
        None => false,
    };
    if is_white_rook && start == 63 {
        board.can_rook_white_small = false;
    } else if is_white_rook && start == 56 {
        board.can_rook_white_big = false;
    } else if is_black_rook && start == 7 {
        board.can_rook_black_small = false;
    } else if is_black_rook && start == 0 {
        board.can_rook_black_big = false;
    }
    if end == 63 {
        board.can_rook_white_small = false;
    }
    if end == 56 {
        board.can_rook_white_big = false;
    }
    if end == 7 {
        board.can_rook_black_small = false;
    }
    if end == 0 {
        board.can_rook_black_big = false;
    }
}

} // verus!
