//! The rules of movement as specifications: which squares a piece attacks,
//! which moves are pseudo-legal on a square, and which of them are legal.

use vstd::prelude::*;
use crate::game::GameState;
use crate::mailbox::{step, OFF_BOARD};
use crate::moves::{
    MoveView, CAPTURE, DOUBLE_PAWN_PUSH, EP_CAPTURE, KING_CASTLE, KNIGHT_PROMOTION,
    KNIGHT_PROMOTION_CAP, QUEEN_CASTLE, QUIET_MOVE,
};
use crate::piece::{PieceView, BISHOP, BLACK, EMPTY, KING, KNIGHT, PAWN, QUEEN, ROOK, WHITE};
use crate::position::{
    castle_rook_to, col_of, forward, forward_rows, king_rook_corner, queen_rook_corner, row_of,
    Position,
};

verus! {

/// The steps that a piece of this kind takes, each as rows down and columns
/// right, in the order in which its moves are listed. A pawn has none here.
pub open spec fn directions(kind: int) -> Seq<(int, int)> {
    if kind == KNIGHT {
        seq![(-2, -1), (-2, 1), (-1, -2), (-1, 2), (1, -2), (1, 2), (2, -1), (2, 1)]
    } else if kind == BISHOP {
        seq![(-1, -1), (-1, 1), (1, -1), (1, 1)]
    } else if kind == ROOK {
        seq![(-1, 0), (0, -1), (0, 1), (1, 0)]
    } else if kind == QUEEN || kind == KING {
        seq![(-1, -1), (-1, 0), (-1, 1), (0, -1), (0, 1), (1, -1), (1, 0), (1, 1)]
    } else {
        seq![]
    }
}

/// Bishop, rook and queen repeat their step until something is in the way.
pub open spec fn slides(kind: int) -> bool {
    kind == BISHOP || kind == ROOK || kind == QUEEN
}

/// An upper bound on how many more steps `(dr, dc)` can be taken from `sq`
/// before the board ends.
pub open spec fn steps_left(sq: int, dr: int, dc: int) -> int {
    if dr > 0 {
        7 - row_of(sq)
    } else if dr < 0 {
        row_of(sq)
    } else if dc > 0 {
        7 - col_of(sq)
    } else {
        col_of(sq)
    }
}

/// The first occupied square met when walking from `sq` by `(dr, dc)`: one
/// step if `slide` is false, else until the board ends. `OFF_BOARD` if the
/// walk meets nothing.
pub open spec fn first_occupied(board: Seq<PieceView>, sq: int, dr: int, dc: int, slide: bool) -> int
    decreases steps_left(sq, dr, dc),
{
    let next = step(sq, dr, dc);
    if !(0 <= sq < 64) || (dr == 0 && dc == 0) || next == OFF_BOARD {
        OFF_BOARD as int
    } else if board[next].kind != EMPTY {
        next
    } else if slide {
        first_occupied(board, next, dr, dc, slide)
    } else {
        OFF_BOARD as int
    }
}

/// A piece of kind `kind` that does not belong to `color` strikes `sq`
/// along its `i`-th direction. The steps of every kind but the pawn are
/// symmetric, so the walk starts at `sq`.
pub open spec fn attacks_from(p: Position, sq: int, color: int, kind: int, i: int) -> bool {
    let d = directions(kind)[i];
    let hit = first_occupied(p.board, sq, d.0, d.1, slides(kind));
    hit != OFF_BOARD && p.board[hit].kind == kind && p.board[hit].color != color
}

/// A pawn that does not belong to `color` stands one row ahead of `sq`, as
/// `color` sees it, and `dc` columns aside: from there it captures on `sq`.
pub open spec fn pawn_attacks_from(p: Position, sq: int, color: int, dc: int) -> bool {
    let from = step(sq, forward_rows(color), dc);
    from != OFF_BOARD && p.board[from].kind == PAWN && p.board[from].color != color
}

/// Some piece that does not belong to `color` could capture on `sq`.
pub open spec fn attacked(p: Position, sq: int, color: int) -> bool {
    ||| exists|kind: int, i: int|
        KNIGHT <= kind <= KING && 0 <= i < directions(kind).len() && #[trigger] attacks_from(
            p,
            sq,
            color,
            kind,
            i,
        )
    ||| pawn_attacks_from(p, sq, color, -1)
    ||| pawn_attacks_from(p, sq, color, 1)
}

/// The move onto an empty square.
pub open spec fn quiet(from: int, to: int) -> MoveView {
    MoveView { from, to, flags: QUIET_MOVE as int }
}

/// The move that captures what stands on `to`.
pub open spec fn capture(from: int, to: int) -> MoveView {
    MoveView { from, to, flags: CAPTURE as int }
}

/// The moves of the piece on `from` along `(dr, dc)`, continuing from `cur`:
/// a quiet move to each empty square, then a capture if the first occupied
/// square holds a piece of the other side. Without `slide` the walk ends
/// after one step.
pub open spec fn ray_moves(p: Position, from: int, cur: int, dr: int, dc: int, slide: bool) -> Seq<
    MoveView,
>
    decreases steps_left(cur, dr, dc),
{
    let next = step(cur, dr, dc);
    if !(0 <= cur < 64) || (dr == 0 && dc == 0) || next == OFF_BOARD {
        seq![]
    } else if p.board[next].kind != EMPTY {
        if p.board[next].color != p.turn {
            seq![capture(from, next)]
        } else {
            seq![]
        }
    } else if slide {
        seq![quiet(from, next)] + ray_moves(p, from, next, dr, dc, slide)
    } else {
        seq![quiet(from, next)]
    }
}

/// The moves of the piece on `sq` along the first `n` of its directions.
pub open spec fn step_moves(p: Position, sq: int, n: nat) -> Seq<MoveView>
    decreases n,
{
    if n == 0 {
        seq![]
    } else {
        let kind = p.board[sq].kind;
        let d = directions(kind)[n - 1];
        step_moves(p, sq, (n - 1) as nat) + ray_moves(p, sq, sq, d.0, d.1, slides(kind))
    }
}

/// The castling moves of a king on `sq` that has never moved: toward each
/// corner of the side to move where a rook that has never moved stands, if
/// the squares between king and corner are empty (three on the queen's
/// side, two on the king's). Whether the king is or passes through check
/// is not asked here.
pub open spec fn castle_moves(p: Position, sq: int) -> Seq<MoveView> {
    if p.board[sq].kind == KING && !p.board[sq].has_moved() {
        let queen_side = if p.rook_ready(queen_rook_corner(p.turn)) && p.board[sq - 1].is_empty()
            && p.board[sq - 2].is_empty() && p.board[sq - 3].is_empty() {
            seq![MoveView { from: sq, to: sq - 2, flags: QUEEN_CASTLE as int }]
        } else {
            seq![]
        };
        let king_side = if p.rook_ready(king_rook_corner(p.turn)) && p.board[sq + 1].is_empty()
            && p.board[sq + 2].is_empty() {
            seq![MoveView { from: sq, to: sq + 2, flags: KING_CASTLE as int }]
        } else {
            seq![]
        };
        queen_side + king_side
    } else {
        seq![]
    }
}

/// A pawn that steps onto `sq` promotes.
pub open spec fn promotes_on(sq: int) -> bool {
    row_of(sq) == 0 || row_of(sq) == 7
}

/// The four promotions from `from` to `to`, knight first, queen last.
pub open spec fn promotions(from: int, to: int, base: int) -> Seq<MoveView> {
    seq![
        MoveView { from, to, flags: base },
        MoveView { from, to, flags: base + 1 },
        MoveView { from, to, flags: base + 2 },
        MoveView { from, to, flags: base + 3 },
    ]
}

/// The captures of a pawn whose forward square is `next`, toward the
/// column `dc` aside: none unless a piece of the other side stands there.
pub open spec fn pawn_captures(p: Position, from: int, next: int, dc: int) -> Seq<MoveView> {
    let to = step(next, 0, dc);
    if to != OFF_BOARD && !p.board[to].is_empty() && p.board[to].color != p.turn {
        if promotes_on(next) {
            promotions(from, to, KNIGHT_PROMOTION_CAP as int)
        } else {
            seq![capture(from, to)]
        }
    } else {
        seq![]
    }
}

/// The pushes of a pawn whose forward square is `next`: one step if that
/// square is empty, and from a home row two steps if the second square is
/// empty too; on the last row the step is a promotion.
pub open spec fn pawn_pushes(p: Position, from: int, next: int) -> Seq<MoveView> {
    if !p.board[next].is_empty() {
        seq![]
    } else if promotes_on(next) {
        promotions(from, next, KNIGHT_PROMOTION as int)
    } else if (row_of(from) == 1 || row_of(from) == 6) && p.board[next + forward(p.turn)].is_empty() {
        seq![
            quiet(from, next),
            MoveView { from, to: next + forward(p.turn), flags: DOUBLE_PAWN_PUSH as int },
        ]
    } else {
        seq![quiet(from, next)]
    }
}

/// The en-passant capture of a pawn toward the column `dc` aside: the pawn
/// that has just made a double push stands beside it there.
pub open spec fn pawn_en_passant(p: Position, from: int, next: int, dc: int) -> Seq<MoveView> {
    if p.ep < 64 && step(from, 0, dc) == p.ep {
        seq![MoveView { from, to: next + dc, flags: EP_CAPTURE as int }]
    } else {
        seq![]
    }
}

/// The moves of the pawn on `sq`: captures to the left and to the right,
/// pushes, and en-passant captures to the left and to the right.
pub open spec fn pawn_moves(p: Position, sq: int) -> Seq<MoveView> {
    let next = sq + forward(p.turn);
    pawn_captures(p, sq, next, -1) + pawn_captures(p, sq, next, 1) + pawn_pushes(p, sq, next)
        + pawn_en_passant(p, sq, next, -1) + pawn_en_passant(p, sq, next, 1)
}

/// The moves of whatever stands on `sq` that obey its way of moving and the
/// occupancy of the board, whether or not they leave the mover's king
/// attacked. None if the square is empty or holds a piece of the side that
/// is not to move.
pub open spec fn pseudo_legal_moves(p: Position, sq: int) -> Seq<MoveView> {
    let piece = p.board[sq];
    if piece.is_empty() || piece.color != p.turn {
        seq![]
    } else if piece.kind == PAWN {
        pawn_moves(p, sq)
    } else {
        step_moves(p, sq, directions(piece.kind).len()) + castle_moves(p, sq)
    }
}

/// The pseudo-legal moves from the squares below `n`, square by square.
pub open spec fn pseudo_legal_moves_below(p: Position, n: nat) -> Seq<MoveView>
    decreases n,
{
    if n == 0 {
        seq![]
    } else {
        pseudo_legal_moves_below(p, (n - 1) as nat) + pseudo_legal_moves(p, n - 1)
    }
}

/// The square that the king crosses in a castle: the one on which the
/// rook lands.
pub open spec fn castle_transit(m: MoveView) -> int {
    castle_rook_to(m)
}

/// A move is legal if it does not leave the mover's own king attacked, and,
/// for a castle, if neither the king's square nor the square it crosses is
/// attacked before the move.
pub open spec fn is_legal(p: Position, m: MoveView) -> bool {
    &&& m.is_castle() ==> !attacked(p, m.from, p.turn) && !attacked(p, castle_transit(m), p.turn)
    &&& !attacked(p.apply(m), p.apply(m).king_square[p.turn], p.turn)
}

/// `is_legal` on `p`, as a predicate on moves.
pub open spec fn legality(p: Position) -> spec_fn(MoveView) -> bool {
    |m: MoveView| is_legal(p, m)
}

/// The legal ones among `moves`, in their order.
pub open spec fn legal_among(p: Position, moves: Seq<MoveView>) -> Seq<MoveView> {
    moves.filter(legality(p))
}

/// Every move of the list has the shape that `p` admits.
pub open spec fn all_admitted(p: Position, moves: Seq<MoveView>) -> bool {
    forall|i: int| 0 <= i < moves.len() ==> p.admits(#[trigger] moves[i])
}

/// Every move of the list starts on `from`.
pub open spec fn all_from(from: int, moves: Seq<MoveView>) -> bool {
    forall|i: int| 0 <= i < moves.len() ==> (#[trigger] moves[i]).from == from
}

/// The move is among the pseudo-legal moves from its source square.
pub open spec fn is_pseudo_legal(p: Position, m: MoveView) -> bool {
    0 <= m.from < 64 && pseudo_legal_moves(p, m.from).contains(m)
}

/// Every move of the list is pseudo-legal on `p`.
pub open spec fn all_pseudo_legal(p: Position, moves: Seq<MoveView>) -> bool {
    forall|i: int| 0 <= i < moves.len() ==> is_pseudo_legal(p, #[trigger] moves[i])
}

/// Each king stands where the position says it does.
pub open spec fn kings_tracked(p: Position) -> bool {
    &&& p.board[p.king_square[WHITE as int]].kind == KING
    &&& p.board[p.king_square[WHITE as int]].color == WHITE
    &&& p.board[p.king_square[BLACK as int]].kind == KING
    &&& p.board[p.king_square[BLACK as int]].color == BLACK
}

/// The position can arise in a game: it is well formed, the kings stand
/// where it says, and the side that has just moved has not left its king
/// attacked.
pub open spec fn sound(p: Position) -> bool {
    &&& p.wf()
    &&& kings_tracked(p)
    &&& !attacked(p, p.king_square[1 - p.turn], 1 - p.turn)
}

/// Appending a move to a list appends it to the legal ones if it is legal.
pub proof fn lemma_legal_among_push(p: Position, moves: Seq<MoveView>, m: MoveView)
    ensures
        legal_among(p, moves.push(m)) == if is_legal(p, m) {
            legal_among(p, moves).push(m)
        } else {
            legal_among(p, moves)
        },
{
    moves.lemma_filter_push(m, legality(p));
}

/// The legal ones among a list of moves are legal, and they have what all
/// moves of the list have: the shape that `p` admits, and being
/// pseudo-legal.
pub proof fn lemma_legal_among_sound(p: Position, moves: Seq<MoveView>)
    ensures
        forall|i: int|
            0 <= i < legal_among(p, moves).len() ==> is_legal(p, #[trigger] legal_among(p, moves)[i]),
        all_admitted(p, moves) ==> all_admitted(p, legal_among(p, moves)),
        all_pseudo_legal(p, moves) ==> all_pseudo_legal(p, legal_among(p, moves)),
    decreases moves.len(),
{
    reveal(Seq::filter);
    if moves.len() > 0 {
        lemma_legal_among_sound(p, moves.drop_last());
        assert(all_admitted(p, moves) ==> all_admitted(p, moves.drop_last())) by {
            if all_admitted(p, moves) {
                assert forall|i: int| 0 <= i < moves.drop_last().len() implies p.admits(
                    #[trigger] moves.drop_last()[i],
                ) by {
                    assert(moves.drop_last()[i] == moves[i]);
                }
            }
        }
        assert(all_pseudo_legal(p, moves) ==> all_pseudo_legal(p, moves.drop_last())) by {
            if all_pseudo_legal(p, moves) {
                assert forall|i: int| 0 <= i < moves.drop_last().len() implies is_pseudo_legal(
                    p,
                    #[trigger] moves.drop_last()[i],
                ) by {
                    assert(moves.drop_last()[i] == moves[i]);
                }
            }
        }
    }
}

/// The legal moves from `sq`.
pub open spec fn legal_moves_from(p: Position, sq: int) -> Seq<MoveView> {
    legal_among(p, pseudo_legal_moves(p, sq))
}

/// All legal moves of the side to move, by source square.
pub open spec fn legal_moves(p: Position) -> Seq<MoveView> {
    legal_among(p, pseudo_legal_moves_below(p, 64))
}

/// The legal moves from the squares below `n`, square by square.
pub open spec fn legal_moves_below(p: Position, n: nat) -> Seq<MoveView>
    decreases n,
{
    if n == 0 {
        seq![]
    } else {
        legal_moves_below(p, (n - 1) as nat) + legal_moves_from(p, n - 1)
    }
}

/// The side to move is in check.
pub open spec fn in_check(p: Position) -> bool {
    attacked(p, p.king_square[p.turn], p.turn)
}

/// The pieces of `color`, as a predicate on squares' contents.
pub open spec fn is_piece_of(color: int) -> spec_fn(PieceView) -> bool {
    |piece: PieceView| !piece.is_empty() && piece.color == color
}

/// The pieces of `color` and kind `kind`, as a predicate on squares' contents.
pub open spec fn is_kind_of(color: int, kind: int) -> spec_fn(PieceView) -> bool {
    |piece: PieceView| piece.kind == kind && piece.color == color
}

/// How many pieces `color` has on the board.
pub open spec fn material(board: Seq<PieceView>, color: int) -> nat {
    board.filter(is_piece_of(color)).len()
}

/// How many pieces of kind `kind` `color` has on the board.
pub open spec fn count_of(board: Seq<PieceView>, color: int, kind: int) -> nat {
    board.filter(is_kind_of(color, kind)).len()
}

/// `color` cannot give mate with what it has: one piece alone (the king),
/// two of which one is a bishop or a knight, or three of which two are
/// knights.
pub open spec fn cannot_mate(board: Seq<PieceView>, color: int) -> bool {
    ||| material(board, color) == 1
    ||| material(board, color) == 2 && (count_of(board, color, BISHOP as int) == 1 || count_of(
        board,
        color,
        KNIGHT as int,
    ) == 1)
    ||| material(board, color) == 3 && count_of(board, color, KNIGHT as int) == 2
}

/// Neither side can give mate.
pub open spec fn insufficient_material(p: Position) -> bool {
    cannot_mate(p.board, WHITE as int) && cannot_mate(p.board, BLACK as int)
}

/// The number of plies without pawn move or capture at which a draw is reached.
pub const FIFTY_MOVE_PLIES: usize = 100;

/// How the position stands. No legal move means checkmate or stalemate.
/// Otherwise a draw by material comes before a draw by the clock, and
/// either before a plain check.
pub open spec fn game_state(p: Position) -> GameState {
    if legal_moves(p).len() == 0 {
        if in_check(p) {
            GameState::Checkmate
        } else {
            GameState::Stalemate
        }
    } else if insufficient_material(p) {
        GameState::InsufficientMaterial
    } else if p.clock >= FIFTY_MOVE_PLIES {
        GameState::DrawBy50MoveRule
    } else if in_check(p) {
        GameState::Check
    } else {
        GameState::InProgress
    }
}

/// A move answers a request by source, target and promotion code: for a
/// promotion the code, taken without the capture bit, must be the one asked.
pub open spec fn answers(m: MoveView, from: int, to: int, promotion: int) -> bool {
    m.from == from && m.to == to && (m.is_promotion() ==> m.flags_without_capture() == promotion)
}

/// The first move of the list that answers the request.
pub open spec fn first_answer(moves: Seq<MoveView>, from: int, to: int, promotion: int) -> Option<
    MoveView,
>
    decreases moves.len(),
{
    if moves.len() == 0 {
        None
    } else if answers(moves[0], from, to, promotion) {
        Some(moves[0])
    } else {
        first_answer(moves.drop_first(), from, to, promotion)
    }
}

} // verus!
