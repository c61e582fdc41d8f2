//! The board as text: eight lines of eight squares.

use vstd::prelude::*;
use vstd::string::StringExecFns;
use crate::game::Game;
use crate::piece::{PieceView, BISHOP, BLACK, EMPTY, KING, KNIGHT, PAWN, QUEEN, ROOK, WHITE};

verus! {

/// The letter for the color of a piece; nothing for an empty square.
pub open spec fn color_mark(piece: PieceView) -> Seq<char> {
    if piece.kind == EMPTY {
        seq![]
    } else if piece.color == WHITE {
        seq!['W']
    } else if piece.color == BLACK {
        seq!['B']
    } else {
        seq!['_']
    }
}

/// The letter for the kind of a piece and a blank; two dots and a blank
/// for an empty square.
pub open spec fn kind_mark(piece: PieceView) -> Seq<char> {
    if piece.kind == PAWN {
        seq!['P', ' ']
    } else if piece.kind == KNIGHT {
        seq!['N', ' ']
    } else if piece.kind == BISHOP {
        seq!['B', ' ']
    } else if piece.kind == ROOK {
        seq!['R', ' ']
    } else if piece.kind == QUEEN {
        seq!['Q', ' ']
    } else if piece.kind == KING {
        seq!['K', ' ']
    } else {
        seq!['.', '.', ' ']
    }
}

/// The text of one square. Each row but the first starts on a new line.
pub open spec fn square_text(board: Seq<PieceView>, sq: int) -> Seq<char> {
    let line = if sq != 0 && sq % 8 == 0 {
        seq!['\n']
    } else {
        seq![]
    };
    line + color_mark(board[sq]) + kind_mark(board[sq])
}

/// The text of the squares below `n`.
pub open spec fn board_text(board: Seq<PieceView>, n: nat) -> Seq<char>
    decreases n,
{
    if n == 0 {
        seq![]
    } else {
        board_text(board, (n - 1) as nat) + square_text(board, n - 1)
    }
}

impl Game {
    /// The board as text, row by row from the top: each piece as the
    /// letter of its color and the letter of its kind, each empty square
    /// as two dots.
    pub fn to_string(&self) -> (text: String)
        ensures
            text@ == board_text(self@.board, 64),
    {
        let mut board_string: String = String::new();
        let ghost board = self@.board;
        proof {
            reveal_strlit("\n");
            reveal_strlit("W");
            reveal_strlit("B");
            reveal_strlit("_");
            reveal_strlit("P ");
            reveal_strlit("N ");
            reveal_strlit("B ");
            reveal_strlit("R ");
            reveal_strlit("Q ");
            reveal_strlit("K ");
            reveal_strlit(".. ");
        }
        let mut i: usize = 0;
        while i < 64
            invariant
                board == self@.board,
                0 <= i <= 64,
                board_string@ == board_text(board, i as nat),
                "\n"@ == seq!['\n'],
                "W"@ == seq!['W'],
                "B"@ == seq!['B'],
                "_"@ == seq!['_'],
                "P "@ == seq!['P', ' '],
                "N "@ == seq!['N', ' '],
                "B "@ == seq!['B', ' '],
                "R "@ == seq!['R', ' '],
                "Q "@ == seq!['Q', ' '],
                "K "@ == seq!['K', ' '],
                ".. "@ == seq!['.', '.', ' '],
            decreases 64 - i,
        {
            let ghost before = board_string@;
            let ghost piece = board[i as int];
            if i != 0 && i % 8 == 0 {
                board_string.append("\n");
            }
            let kind: usize = self.board[i].get_type();
            if kind != EMPTY {
                let color: usize = self.board[i].get_color();
                if color == WHITE {
                    board_string.append("W");
                } else if color == BLACK {
                    board_string.append("B");
                } else {
                    board_string.append("_");
                }
            }
            if kind == PAWN {
                board_string.append("P ");
            } else if kind == KNIGHT {
                board_string.append("N ");
            } else if kind == BISHOP {
                board_string.append("B ");
            } else if kind == ROOK {
                board_string.append("R ");
            } else if kind == QUEEN {
                board_string.append("Q ");
            } else if kind == KING {
                board_string.append("K ");
            } else {
                board_string.append(".. ");
            }
            assert(board_string@ =~= before + square_text(board, i as int));
            i += 1;
        }
        board_string
    }
}

} // verus!
