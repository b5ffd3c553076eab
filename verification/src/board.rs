use vstd::prelude::*;

use crate::piece::Piece;

verus! {

/// The abstract content of a board: the 64 squares (index `rank * 8 + file`,
/// rank 0 being Black's back rank), whose turn it is, the four castling rights
/// and the two move counters.
pub struct BoardView {
    pub squares: Seq<Option<Piece>>,
    pub black_play: bool,
    pub white_play: bool,
    pub can_rook_black_small: bool,
    pub can_rook_black_big: bool,
    pub can_rook_white_small: bool,
    pub can_rook_white_big: bool,
    pub number_of_half_moves: u64,
    pub number_of_moves: u64,
}

/// A chess position.
#[derive(Clone, Copy)]
pub struct Board {
    pub square: [Option<Piece>; 64],
    pub black_play: bool,
    pub white_play: bool,
    pub can_rook_black_small: bool,
    pub can_rook_black_big: bool,
    pub can_rook_white_small: bool,
    pub can_rook_white_big: bool,
    pub number_of_half_moves: u64,
    pub number_of_moves: u64,
}

impl View for Board {
    type V = BoardView;

    open spec fn view(&self) -> BoardView {
        BoardView {
            squares: self.square@,
            black_play: self.black_play,
            white_play: self.white_play,
            can_rook_black_small: self.can_rook_black_small,
            can_rook_black_big: self.can_rook_black_big,
            can_rook_white_small: self.can_rook_white_small,
            can_rook_white_big: self.can_rook_white_big,
            number_of_half_moves: self.number_of_half_moves,
            number_of_moves: self.number_of_moves,
        }
    }
}

/// The board view with `piece` put on square `index`, everything else kept.
pub open spec fn with_piece(b: BoardView, index: int, piece: Piece) -> BoardView {
    BoardView { squares: b.squares.update(index, Some(piece)), ..b }
}

/// The board a new game starts from before any position is loaded: no piece,
/// White to move, every castling right, no half move played, move number one.
pub open spec fn empty_board() -> BoardView {
    BoardView {
        squares: Seq::new(64, |i: int| None),
        black_play: false,
        white_play: true,
        can_rook_black_small: true,
        can_rook_black_big: true,
        can_rook_white_small: true,
        can_rook_white_big: true,
        number_of_half_moves: 0,
        number_of_moves: 1,
    }
}

impl Board {
    /// An empty board, White to move, all castling rights, counters 0 and 1.
    pub fn new() -> (b: Board)
        ensures
            b@ == empty_board(),
    {
        let b = Board {
            square: [None; 64],
            black_play: false,
            white_play: true,
            can_rook_black_big: true,
            can_rook_white_small: true,
            can_rook_white_big: true,
            can_rook_black_small: true,
            number_of_half_moves: 0,
            number_of_moves: 1,
        };
        assert(b@.squares =~= empty_board().squares);
        b
    }

    /// Puts `piece` on square `index`.
    pub fn set(&mut self, index: usize, piece: Piece)
        requires
            index < 64,
        ensures
            final(self)@ == with_piece(old(self)@, index as int, piece),
    {
        self.square[index] = Some(piece);
    }

    /// What stands on square `index`.
    pub fn get(&self, index: usize) -> (r: Option<Piece>)
        requires
            index < 64,
        ensures
            r == self@.squares[index as int],
    {
        self.square[index]
    }
}

} // verus!
