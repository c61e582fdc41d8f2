//! The mathematical model of a game: a position, what it means to apply a
//! move to it, and when a position is well formed.

use vstd::prelude::*;
use crate::moves::{MoveView, KNIGHT_PROMOTION};
use crate::piece::{
    PieceView, BISHOP, BLACK, EMPTY, HAS_MOVED, KING, KNIGHT, PAWN, QUEEN, ROOK, WHITE,
};

verus! {

/// Marker for "no en-passant capture is possible": any value from 64 up.
pub const NO_EP: usize = 64;

/// A position as plain values. Squares count from 0 to 63, row by row,
/// starting at the top left, which is a8.
pub struct Position {
    /// The 64 squares.
    pub board: Seq<PieceView>,
    /// The side to move.
    pub turn: int,
    /// The square of the pawn that has just made a double push and may be
    /// captured en passant on this ply, or a value of 64 or more.
    pub ep: int,
    /// The square of each side's king, by color.
    pub king_square: Seq<int>,
    /// Plies since the last pawn move or capture.
    pub clock: int,
}

/// The row of a square, counted from the top.
pub open spec fn row_of(sq: int) -> int {
    sq / 8
}

/// The column of a square, counted from the left.
pub open spec fn col_of(sq: int) -> int {
    sq % 8
}

/// The rows that a pawn advances with one step: white pawns move toward row 0.
pub open spec fn forward_rows(color: int) -> int {
    if color == WHITE {
        -1
    } else {
        1
    }
}

/// What one forward step of a pawn adds to its square.
pub open spec fn forward(color: int) -> int {
    8 * forward_rows(color)
}

/// The square on which a king of this color starts.
pub open spec fn king_home(color: int) -> int {
    if color == WHITE {
        60
    } else {
        4
    }
}

/// The row on which a pawn of this color stands after a double push.
pub open spec fn double_push_row(color: int) -> int {
    if color == WHITE {
        4
    } else {
        3
    }
}

/// The corner on which the queen's rook of a side starts.
pub open spec fn queen_rook_corner(color: int) -> int {
    if color == WHITE {
        56
    } else {
        0
    }
}

/// The corner on which the king's rook of a side starts.
pub open spec fn king_rook_corner(color: int) -> int {
    if color == WHITE {
        63
    } else {
        7
    }
}

/// The kind that a promotion code names: the codes for knight, bishop,
/// rook and queen follow each other in the order of the kinds.
pub open spec fn promoted_kind(m: MoveView) -> int {
    m.flags_without_capture() - KNIGHT_PROMOTION + KNIGHT
}

/// The square that a capture empties: the target, except en passant,
/// where it is the square beside the capturing pawn, in the target's column.
pub open spec fn captured_square(m: MoveView) -> int {
    if m.is_ep_capture() {
        m.from - col_of(m.from) + col_of(m.to)
    } else {
        m.to
    }
}

/// The corner from which the rook leaves in a castle.
pub open spec fn castle_rook_from(m: MoveView) -> int {
    if m.is_queen_castle() {
        m.from - 4
    } else {
        m.from + 3
    }
}

/// The square on which the rook lands in a castle: the one beside the
/// king's start, which the king crosses.
pub open spec fn castle_rook_to(m: MoveView) -> int {
    if m.is_queen_castle() {
        m.from - 1
    } else {
        m.from + 1
    }
}

impl Position {
    /// The position after a list of moves, made one after another.
    pub open spec fn apply_all(self, moves: Seq<MoveView>) -> Position
        decreases moves.len(),
    {
        if moves.len() == 0 {
            self
        } else {
            self.apply_all(moves.drop_last()).apply(moves.last())
        }
    }

    /// The en-passant marker names a pawn of the side that has just moved,
    /// on the row where its double push ends, and the square that the pawn
    /// passed over is empty.
    pub open spec fn ep_is_sound(self) -> bool {
        let pusher = 1 - self.turn;
        &&& row_of(self.ep) == double_push_row(pusher)
        &&& self.board[self.ep].kind == PAWN
        &&& self.board[self.ep].color == pusher
        &&& self.board[self.ep - forward(pusher)].is_empty()
    }

    /// A rook that has never moved stands on `corner`.
    pub open spec fn rook_ready(self, corner: int) -> bool {
        self.board[corner].kind == ROOK && !self.board[corner].has_moved()
    }

    /// A king that has never moved stands on `sq`, and so does a rook on
    /// one of the corners of the king's color: the king might castle.
    pub open spec fn may_castle_from(self, sq: int) -> bool {
        let king = self.board[sq];
        &&& king.kind == KING
        &&& !king.has_moved()
        &&& (self.rook_ready(queen_rook_corner(king.color)) || self.rook_ready(
            king_rook_corner(king.color),
        ))
    }

    /// What every operation on a game relies on: the sizes and ranges of the
    /// fields, that no pawn stands on the first or the last row, that an
    /// en-passant marker is sound, and that a king which might castle
    /// stands on its home square.
    pub open spec fn wf(self) -> bool {
        &&& self.board.len() == 64
        &&& self.king_square.len() == 2
        &&& (self.turn == WHITE || self.turn == BLACK)
        &&& 0 <= self.ep
        &&& 0 <= self.clock
        &&& 0 <= self.king_square[0] < 64
        &&& 0 <= self.king_square[1] < 64
        &&& forall|sq: int| 0 <= sq < 64 ==> (#[trigger] self.board[sq]).wf()
        &&& forall|sq: int|
            (0 <= sq < 8 || 56 <= sq < 64) ==> (#[trigger] self.board[sq]).kind != PAWN
        &&& self.ep < 64 ==> self.ep_is_sound()
        &&& forall|sq: int|
            0 <= sq < 64 && #[trigger] self.may_castle_from(sq) ==> sq == king_home(self.board[sq].color)
    }

    /// The shape that every pseudo-legal move has. A piece of the side to
    /// move leaves `from`. A castle is made by a king that has never moved,
    /// from its home square, two squares aside, with a rook that has never
    /// moved on the corner and empty squares where king and rook land. An en-passant capture is made by
    /// a pawn beside the marked pawn, onto the square that pawn passed
    /// over. Any other capture lands on a piece of the other side, and a
    /// move that is none lands on an empty square. Only pawns promote, and
    /// they do whenever they reach the first or the last row. A double push
    /// is made by a pawn over an empty square to its double-push row.
    pub open spec fn admits(self, m: MoveView) -> bool {
        let mover = self.board[m.from];
        &&& m.wf()
        &&& !mover.is_empty()
        &&& mover.color == self.turn
        &&& if m.is_castle() {
            &&& mover.kind == KING
            &&& m.from == king_home(self.turn)
            &&& m.to == if m.is_queen_castle() {
                m.from - 2
            } else {
                m.from + 2
            }
            &&& !mover.has_moved()
            &&& self.rook_ready(castle_rook_from(m))
            &&& self.board[castle_rook_to(m)].is_empty()
            &&& self.board[m.to].is_empty()
        } else if m.is_ep_capture() {
            &&& mover.kind == PAWN
            &&& self.ep < 64
            &&& captured_square(m) == self.ep
            &&& m.to == self.ep + forward(self.turn)
        } else if m.is_capture() {
            &&& !self.board[m.to].is_empty()
            &&& self.board[m.to].color != self.turn
        } else {
            self.board[m.to].is_empty()
        }
        &&& m.is_promotion() ==> mover.kind == PAWN
        &&& mover.kind == PAWN && !m.is_promotion() ==> 1 <= row_of(m.to) <= 6
        &&& m.is_double_pawn_push() ==> {
            &&& mover.kind == PAWN
            &&& m.to == m.from + 2 * forward(self.turn)
            &&& row_of(m.to) == double_push_row(self.turn)
            &&& self.board[m.from + forward(self.turn)].is_empty()
        }
    }

    /// The board after a move. A capture empties the captured square; the
    /// moving piece goes to the target and is marked as moved; the source
    /// is emptied; a castle also carries the rook over the king; a
    /// promotion replaces the kind on the target. An emptied square keeps
    /// the color and flags it had.
    pub open spec fn board_after(self, m: MoveView) -> Seq<PieceView> {
        let b0 = self.board;
        let b1 = if m.is_capture() {
            b0.update(captured_square(m), b0[captured_square(m)].with_kind(EMPTY as int))
        } else {
            b0
        };
        let b2 = b1.update(m.to, b1[m.from]);
        let b3 = b2.update(m.from, b2[m.from].with_kind(EMPTY as int));
        let b4 = b3.update(m.to, b3[m.to].with_flags(HAS_MOVED as int));
        let b5 = if m.is_castle() {
            let b = b4.update(castle_rook_to(m), b4[castle_rook_from(m)].with_flags(HAS_MOVED as int));
            b.update(castle_rook_from(m), b[castle_rook_from(m)].with_kind(EMPTY as int))
        } else {
            b4
        };
        if m.is_promotion() {
            b5.update(m.to, b5[m.to].with_kind(promoted_kind(m)))
        } else {
            b5
        }
    }

    /// The move is a pawn move or a capture: it restarts the clock.
    pub open spec fn restarts_clock(self, m: MoveView) -> bool {
        self.board[m.from].kind == PAWN || m.is_capture()
    }

    /// The position after a move: the board changes as `board_after` says,
    /// the clock restarts on a pawn move or a capture and advances
    /// otherwise, a moving king updates its cached square, only a double
    /// push leaves an en-passant marker, and the turn passes.
    pub open spec fn apply(self, m: MoveView) -> Position {
        let mover = self.board[m.from];
        Position {
            board: self.board_after(m),
            turn: 1 - self.turn,
            ep: if m.is_double_pawn_push() {
                m.to
            } else if self.ep < 64 {
                NO_EP as int
            } else {
                self.ep
            },
            king_square: if mover.kind == KING {
                self.king_square.update(self.turn, m.to)
            } else {
                self.king_square
            },
            clock: if self.restarts_clock(m) {
                0
            } else {
                self.clock + 1
            },
        }
    }
}

/// The kinds on a side's first row at the start, from the a-file to the h-file.
pub open spec fn back_rank() -> Seq<int> {
    seq![
        ROOK as int,
        KNIGHT as int,
        BISHOP as int,
        QUEEN as int,
        KING as int,
        BISHOP as int,
        KNIGHT as int,
        ROOK as int,
    ]
}

/// What stands on a square at the start of a game. Nothing has moved.
pub open spec fn initial_piece(sq: int) -> PieceView {
    if sq < 8 {
        PieceView { kind: back_rank()[sq], color: BLACK as int, flags: 0 }
    } else if sq < 16 {
        PieceView { kind: PAWN as int, color: BLACK as int, flags: 0 }
    } else if sq < 48 {
        PieceView { kind: EMPTY as int, color: 0, flags: 0 }
    } else if sq < 56 {
        PieceView { kind: PAWN as int, color: WHITE as int, flags: 0 }
    } else {
        PieceView { kind: back_rank()[sq - 56], color: WHITE as int, flags: 0 }
    }
}

/// The position at the start of a game: white is to move.
pub open spec fn initial_position() -> Position {
    Position {
        board: Seq::new(64, |sq: int| initial_piece(sq)),
        turn: WHITE as int,
        ep: NO_EP as int,
        king_square: seq![king_home(WHITE as int), king_home(BLACK as int)],
        clock: 0,
    }
}

/// Applying a move that a well-formed position admits gives a well-formed
/// position.
pub proof fn lemma_apply_keeps_wf(p: Position, m: MoveView)
    requires
        p.wf(),
        p.admits(m),
    ensures
        p.apply(m).wf(),
{
    let q = p.apply(m);
    assert(q.board.len() == 64);
    assert forall|sq: int| 0 <= sq < 64 implies (#[trigger] q.board[sq]).wf() by {
        assert(p.board[sq].wf());
        assert(p.board[m.from].wf());
    }
    lemma_unmoved_stood_still(p, m);
    assert forall|sq: int| 0 <= sq < 64 && #[trigger] q.may_castle_from(sq) implies sq == king_home(
        q.board[sq].color,
    ) by {
        assert(p.board[sq] == q.board[sq]);
        let c = q.board[sq].color;
        assert(p.board[sq].wf());
        assert(q.rook_ready(queen_rook_corner(c)) ==> p.rook_ready(queen_rook_corner(c)));
        assert(q.rook_ready(king_rook_corner(c)) ==> p.rook_ready(king_rook_corner(c)));
        assert(p.may_castle_from(sq));
    }
}

/// A piece that has never moved after a move is the same piece on the same
/// square before it: a move marks what it carries, so the mark of having
/// moved is never taken back.
pub proof fn lemma_unmoved_stood_still(p: Position, m: MoveView)
    requires
        p.board.len() == 64,
        m.wf(),
        m.is_castle() ==> 0 <= castle_rook_from(m) < 64 && 0 <= castle_rook_to(m) < 64,
    ensures
        forall|sq: int|
            0 <= sq < 64 && !(#[trigger] p.apply(m).board[sq]).is_empty() && !p.apply(
                m,
            ).board[sq].has_moved() ==> p.apply(m).board[sq] == p.board[sq],
{
}

} // verus!
