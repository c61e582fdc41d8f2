//! What holds of every well-formed position: the shape of its moves, what
//! a move keeps and what it changes, and how castling, the clock and the
//! material decide.

use vstd::prelude::*;
use crate::game::GameState;
use crate::mailbox::{step, OFF_BOARD};
use crate::moves::MoveView;
use crate::piece::{PieceView, BISHOP, BLACK, EMPTY, KING, KNIGHT, PAWN, WHITE};
use crate::position::{
    castle_rook_from, castle_rook_to, forward, initial_piece, initial_position,
    lemma_apply_keeps_wf, row_of, Position, NO_EP,
};
use crate::rules::{
    all_admitted, all_from, all_pseudo_legal, attacked, attacks_from, cannot_mate, castle_moves,
    castle_transit, count_of, directions, game_state, in_check, insufficient_material, is_legal,
    is_pseudo_legal, kings_tracked, legal_among, legal_moves, legal_moves_below, legality,
    lemma_legal_among_sound, material, pawn_captures, pawn_en_passant, pawn_moves, pawn_pushes,
    pseudo_legal_moves, pseudo_legal_moves_below, ray_moves, slides, sound, step_moves, steps_left,
    FIFTY_MOVE_PLIES,
};
use crate::symmetry::{can_capture_on, captures_on, is_capture_on, lemma_attacked_iff_capturable};

verus! {

/// The moves along one walk of a piece of the side to move have the shape
/// that the position admits.
proof fn lemma_ray_moves_admitted(p: Position, from: int, cur: int, dr: int, dc: int, slide: bool)
    requires
        p.wf(),
        0 <= from < 64,
        p.board[from].kind != PAWN,
        !p.board[from].is_empty(),
        p.board[from].color == p.turn,
    ensures
        all_admitted(p, ray_moves(p, from, cur, dr, dc, slide)),
        all_from(from, ray_moves(p, from, cur, dr, dc, slide)),
    decreases steps_left(cur, dr, dc),
{
    let next = step(cur, dr, dc);
    if !(0 <= cur < 64) || (dr == 0 && dc == 0) || next == OFF_BOARD {
    } else if p.board[next].kind != EMPTY {
    } else if slide {
        lemma_ray_moves_admitted(p, from, next, dr, dc, slide);
    } else {
    }
}

/// So have the moves along the first `n` directions.
proof fn lemma_step_moves_admitted(p: Position, sq: int, n: nat)
    requires
        p.wf(),
        0 <= sq < 64,
        p.board[sq].kind != PAWN,
        !p.board[sq].is_empty(),
        p.board[sq].color == p.turn,
    ensures
        all_admitted(p, step_moves(p, sq, n)),
        all_from(sq, step_moves(p, sq, n)),
    decreases n,
{
    if n > 0 {
        let kind = p.board[sq].kind;
        let d = directions(kind)[n - 1];
        lemma_step_moves_admitted(p, sq, (n - 1) as nat);
        lemma_ray_moves_admitted(p, sq, sq, d.0, d.1, slides(kind));
        lemma_admitted_add(
            p,
            sq,
            step_moves(p, sq, (n - 1) as nat),
            ray_moves(p, sq, sq, d.0, d.1, slides(kind)),
        );
    }
}

/// Two lists of moves from one square that the position admits make one
/// such list.
proof fn lemma_admitted_add(p: Position, from: int, a: Seq<MoveView>, b: Seq<MoveView>)
    requires
        all_admitted(p, a),
        all_admitted(p, b),
        all_from(from, a),
        all_from(from, b),
    ensures
        all_admitted(p, a + b),
        all_from(from, a + b),
{
    assert forall|i: int| 0 <= i < (a + b).len() implies p.admits(#[trigger] (a + b)[i]) && (a
        + b)[i].from == from by {
        if i < a.len() {
            assert((a + b)[i] == a[i]);
        } else {
            assert((a + b)[i] == b[i - a.len()]);
        }
    }
}

/// The captures of a pawn have the shape that the position admits.
proof fn lemma_pawn_captures_admitted(p: Position, sq: int, dc: int)
    requires
        p.wf(),
        0 <= sq < 64,
        p.board[sq].kind == PAWN,
        p.board[sq].color == p.turn,
        dc == -1 || dc == 1,
    ensures
        all_admitted(p, pawn_captures(p, sq, sq + forward(p.turn), dc)),
        all_from(sq, pawn_captures(p, sq, sq + forward(p.turn), dc)),
{
}

/// The pushes of a pawn have the shape that the position admits.
proof fn lemma_pawn_pushes_admitted(p: Position, sq: int)
    requires
        p.wf(),
        0 <= sq < 64,
        p.board[sq].kind == PAWN,
        p.board[sq].color == p.turn,
    ensures
        all_admitted(p, pawn_pushes(p, sq, sq + forward(p.turn))),
        all_from(sq, pawn_pushes(p, sq, sq + forward(p.turn))),
{
}

/// The en-passant captures of a pawn have the shape that the position
/// admits.
proof fn lemma_pawn_en_passant_admitted(p: Position, sq: int, dc: int)
    requires
        p.wf(),
        0 <= sq < 64,
        p.board[sq].kind == PAWN,
        p.board[sq].color == p.turn,
        dc == -1 || dc == 1,
    ensures
        all_admitted(p, pawn_en_passant(p, sq, sq + forward(p.turn), dc)),
        all_from(sq, pawn_en_passant(p, sq, sq + forward(p.turn), dc)),
{
}

/// All moves of a pawn have the shape that the position admits.
proof fn lemma_pawn_moves_admitted(p: Position, sq: int)
    requires
        p.wf(),
        0 <= sq < 64,
        p.board[sq].kind == PAWN,
        p.board[sq].color == p.turn,
    ensures
        all_admitted(p, pawn_moves(p, sq)),
        all_from(sq, pawn_moves(p, sq)),
{
    let next = sq + forward(p.turn);
    let a = pawn_captures(p, sq, next, -1);
    let b = pawn_captures(p, sq, next, 1);
    let c = pawn_pushes(p, sq, next);
    let d = pawn_en_passant(p, sq, next, -1);
    let e = pawn_en_passant(p, sq, next, 1);
    lemma_pawn_captures_admitted(p, sq, -1);
    lemma_pawn_captures_admitted(p, sq, 1);
    lemma_pawn_pushes_admitted(p, sq);
    lemma_pawn_en_passant_admitted(p, sq, -1);
    lemma_pawn_en_passant_admitted(p, sq, 1);
    lemma_admitted_add(p, sq, a, b);
    lemma_admitted_add(p, sq, a + b, c);
    lemma_admitted_add(p, sq, a + b + c, d);
    lemma_admitted_add(p, sq, a + b + c + d, e);
}

/// The castles of a king have the shape that the position admits.
proof fn lemma_castle_moves_admitted(p: Position, sq: int)
    requires
        p.wf(),
        0 <= sq < 64,
        p.board[sq].color == p.turn,
    ensures
        all_admitted(p, castle_moves(p, sq)),
        all_from(sq, castle_moves(p, sq)),
{
    if castle_moves(p, sq).len() > 0 {
        assert(p.may_castle_from(sq));
    }
}

/// Every pseudo-legal move of a well-formed position starts on the square
/// it was generated for, and can be applied: the position admits it.
pub proof fn lemma_pseudo_legal_admitted(p: Position, sq: int)
    requires
        p.wf(),
        0 <= sq < 64,
    ensures
        all_admitted(p, pseudo_legal_moves(p, sq)),
        all_from(sq, pseudo_legal_moves(p, sq)),
{
    let piece = p.board[sq];
    assert(piece.wf());
    if piece.is_empty() || piece.color != p.turn {
    } else if piece.kind == PAWN {
        lemma_pawn_moves_admitted(p, sq);
    } else {
        let n = directions(piece.kind).len();
        lemma_step_moves_admitted(p, sq, n);
        lemma_castle_moves_admitted(p, sq);
        lemma_admitted_add(p, sq, step_moves(p, sq, n), castle_moves(p, sq));
    }
}

/// The same of the moves from all squares below `n`.
pub proof fn lemma_pseudo_legal_below_admitted(p: Position, n: nat)
    requires
        p.wf(),
        n <= 64,
    ensures
        all_admitted(p, pseudo_legal_moves_below(p, n)),
        all_pseudo_legal(p, pseudo_legal_moves_below(p, n)),
    decreases n,
{
    if n > 0 {
        lemma_pseudo_legal_below_admitted(p, (n - 1) as nat);
        lemma_pseudo_legal_admitted(p, n - 1);
        let a = pseudo_legal_moves_below(p, (n - 1) as nat);
        let b = pseudo_legal_moves(p, n - 1);
        assert forall|i: int| 0 <= i < (a + b).len() implies p.admits(#[trigger] (a + b)[i])
            && is_pseudo_legal(p, (a + b)[i]) by {
            if i < a.len() {
                assert((a + b)[i] == a[i]);
            } else {
                assert((a + b)[i] == b[i - a.len()]);
                assert(b[i - a.len()].from == n - 1);
            }
        }
    }
}

/// The moves from one square are pseudo-legal by their own definition.
pub proof fn lemma_pseudo_legal_listed(p: Position, sq: int)
    requires
        p.wf(),
        0 <= sq < 64,
    ensures
        all_pseudo_legal(p, pseudo_legal_moves(p, sq)),
{
    lemma_pseudo_legal_admitted(p, sq);
}

/// Where the side that is not to move is not in check, no pseudo-legal
/// move captures its king.
pub proof fn lemma_king_is_not_captured(p: Position, m: MoveView)
    requires
        sound(p),
        is_pseudo_legal(p, m),
        m.is_capture(),
        !m.is_ep_capture(),
    ensures
        m.to != p.king_square[1 - p.turn],
{
    let other = 1 - p.turn;
    let k = p.king_square[other];
    if m.to == k {
        let i = choose|i: int|
            0 <= i < pseudo_legal_moves(p, m.from).len() && pseudo_legal_moves(p, m.from)[i] == m;
        assert(is_capture_on(pseudo_legal_moves(p, m.from)[i], k));
        assert(captures_on(pseudo_legal_moves(p, m.from), k));
        assert(can_capture_on(p, k));
        lemma_attacked_iff_capturable(p, p, k, other);
    }
}

/// A legal move leads from a sound position to a sound position: the
/// position stays well formed, the kings stay where the position says they
/// are, and the mover's king is not left attacked.
pub proof fn lemma_legal_move_keeps_sound(p: Position, m: MoveView)
    requires
        sound(p),
        is_pseudo_legal(p, m),
        is_legal(p, m),
    ensures
        sound(p.apply(m)),
{
    let q = p.apply(m);
    let other = 1 - p.turn;
    let k = p.king_square[other];
    let i = choose|i: int|
        0 <= i < pseudo_legal_moves(p, m.from).len() && pseudo_legal_moves(p, m.from)[i] == m;
    lemma_pseudo_legal_admitted(p, m.from);
    assert(p.admits(m));
    lemma_apply_keeps_wf(p, m);
    if m.is_capture() && !m.is_ep_capture() {
        lemma_king_is_not_captured(p, m);
    }
    assert(p.board[m.from].wf());
    assert(q.board[k] == p.board[k]);
    assert(q.king_square[other] == k);
    let own = q.king_square[p.turn];
    assert(q.board[own].kind == KING && q.board[own].color == p.turn);
}

/// Every legal move of a sound position leads to a sound position.
pub proof fn lemma_legal_moves_keep_sound(p: Position, i: int)
    requires
        sound(p),
        0 <= i < legal_moves(p).len(),
    ensures
        sound(p.apply(legal_moves(p)[i])),
        p.admits(legal_moves(p)[i]),
        is_legal(p, legal_moves(p)[i]),
{
    lemma_pseudo_legal_below_admitted(p, 64);
    lemma_legal_among_sound(p, pseudo_legal_moves_below(p, 64));
    lemma_legal_move_keeps_sound(p, legal_moves(p)[i]);
}

/// A pseudo-legal castle is made by a king that has never moved, with a
/// rook that has never moved.
pub proof fn lemma_castle_needs_unmoved(p: Position, m: MoveView)
    requires
        p.wf(),
        is_pseudo_legal(p, m),
        m.is_castle(),
    ensures
        p.board[m.from].kind == KING,
        !p.board[m.from].has_moved(),
        p.rook_ready(castle_rook_from(m)),
{
    lemma_pseudo_legal_admitted(p, m.from);
}

/// A move marks the piece it carries as moved, and a castle the rook too.
pub proof fn lemma_move_marks_mover(p: Position, m: MoveView)
    requires
        p.board.len() == 64,
        m.wf(),
        m.is_castle() ==> 0 <= castle_rook_from(m) < 64 && 0 <= castle_rook_to(m) < 64,
    ensures
        p.apply(m).board[m.to].has_moved(),
        m.is_castle() && castle_rook_from(m) != castle_rook_to(m) ==> p.apply(m).board[castle_rook_to(
            m,
        )].has_moved(),
{
}

/// A legal castle starts on a square that is not attacked, crosses a
/// square that is not attacked, and ends on a square that is not attacked:
/// there is no castling out of, through or into check.
pub proof fn lemma_castle_needs_safe_path(p: Position, m: MoveView)
    requires
        p.wf(),
        is_pseudo_legal(p, m),
        is_legal(p, m),
        m.is_castle(),
    ensures
        !attacked(p, m.from, p.turn),
        !attacked(p, castle_transit(m), p.turn),
        !attacked(p.apply(m), m.to, p.turn),
{
    lemma_pseudo_legal_admitted(p, m.from);
}

/// An en-passant capture removes the pawn that made the double push: it
/// stands beside the capturing pawn, not on the square where the capture
/// lands. The capturing pawn moves there, and no marker is left.
pub proof fn lemma_en_passant_removes_pusher(p: Position, m: MoveView)
    requires
        p.wf(),
        p.admits(m),
        m.is_ep_capture(),
    ensures
        p.ep != m.to,
        row_of(p.ep) == row_of(m.from),
        p.board[p.ep].kind == PAWN,
        p.board[p.ep].color == 1 - p.turn,
        p.apply(m).board[p.ep].is_empty(),
        p.apply(m).board[m.from].is_empty(),
        p.apply(m).board[m.to].kind == PAWN,
        p.apply(m).board[m.to].color == p.turn,
        p.apply(m).ep == NO_EP,
{
    assert(p.board[m.from].wf());
}

/// Only a double push leaves an en-passant marker, on the square where
/// the pawn lands: the capture is offered on the next ply and no longer.
pub proof fn lemma_marker_after_move(p: Position, m: MoveView)
    requires
        p.wf(),
    ensures
        m.is_double_pawn_push() ==> p.apply(m).ep == m.to,
        !m.is_double_pawn_push() ==> p.apply(m).ep >= 64,
{
}

/// A position is checkmate exactly when the side to move is in check and
/// has no legal move, and stalemate when it has none without being in
/// check.
pub proof fn lemma_mate_means_no_move(p: Position)
    ensures
        game_state(p) == GameState::Checkmate <==> legal_moves(p).len() == 0 && in_check(p),
        game_state(p) == GameState::Stalemate <==> legal_moves(p).len() == 0 && !in_check(p),
{
}

/// A pawn move or a capture restarts the clock, and any other move
/// advances it by one.
pub proof fn lemma_clock_after_move(p: Position, m: MoveView)
    ensures
        p.restarts_clock(m) ==> p.apply(m).clock == 0,
        !p.restarts_clock(m) ==> p.apply(m).clock == p.clock + 1,
{
}

/// No move of the list, made in its turn, is a pawn move or a capture.
pub open spec fn all_quiet(p: Position, moves: Seq<MoveView>) -> bool {
    forall|i: int|
        0 <= i < moves.len() ==> !(#[trigger] p.apply_all(moves.take(i))).restarts_clock(moves[i])
}

/// Plies without pawn move or capture advance the clock by their number.
pub proof fn lemma_quiet_plies_count(p: Position, moves: Seq<MoveView>)
    requires
        all_quiet(p, moves),
    ensures
        p.apply_all(moves).clock == p.clock + moves.len(),
    decreases moves.len(),
{
    if moves.len() > 0 {
        let before = moves.drop_last();
        assert forall|i: int| 0 <= i < before.len() implies !(#[trigger] p.apply_all(
            before.take(i),
        )).restarts_clock(before[i]) by {
            assert(before.take(i) =~= moves.take(i));
            assert(!p.apply_all(moves.take(i)).restarts_clock(moves[i]));
        }
        lemma_quiet_plies_count(p, before);
        assert(moves.take(moves.len() - 1) =~= before);
        assert(!p.apply_all(moves.take(moves.len() - 1)).restarts_clock(moves[moves.len() - 1]));
    }
}

/// A position whose clock has reached a hundred plies is a draw by the
/// fifty-move rule, unless it is decided before that: by the lack of a
/// legal move, or by insufficient material.
pub proof fn lemma_fifty_move_draw(p: Position)
    requires
        p.clock >= FIFTY_MOVE_PLIES,
        legal_moves(p).len() > 0,
        !insufficient_material(p),
    ensures
        game_state(p) == GameState::DrawBy50MoveRule,
{
}

/// A hundred plies or more without pawn move or capture end in a draw by
/// the fifty-move rule, unless the position they end in is decided before
/// that.
pub proof fn lemma_hundred_quiet_plies_draw(p: Position, moves: Seq<MoveView>)
    requires
        p.clock >= 0,
        moves.len() >= FIFTY_MOVE_PLIES,
        all_quiet(p, moves),
        legal_moves(p.apply_all(moves)).len() > 0,
        !insufficient_material(p.apply_all(moves)),
    ensures
        game_state(p.apply_all(moves)) == GameState::DrawBy50MoveRule,
{
    lemma_quiet_plies_count(p, moves);
}

/// Where neither side can give mate and the side to move has a move, the
/// game is a draw by insufficient material.
pub proof fn lemma_insufficient_material_draw(p: Position)
    requires
        legal_moves(p).len() > 0,
        cannot_mate(p.board, WHITE as int),
        cannot_mate(p.board, BLACK as int),
    ensures
        game_state(p) == GameState::InsufficientMaterial,
{
}

/// The pieces of two different kinds are together no more than all pieces
/// of their color.
pub proof fn lemma_kinds_within_material(board: Seq<PieceView>, color: int, first: int, second: int)
    requires
        first != second,
        first != EMPTY,
        second != EMPTY,
    ensures
        count_of(board, color, first) + count_of(board, color, second) <= material(board, color),
    decreases board.len(),
{
    reveal(Seq::filter);
    if board.len() > 0 {
        lemma_kinds_within_material(board.drop_last(), color, first, second);
    }
}

/// A side with a king and two bishops can give mate: its material is
/// sufficient, whatever the other side has.
pub proof fn lemma_two_bishops_suffice(p: Position, color: int)
    requires
        color == WHITE || color == BLACK,
        material(p.board, color) == 3,
        count_of(p.board, color, BISHOP as int) == 2,
    ensures
        !cannot_mate(p.board, color),
        game_state(p) != GameState::InsufficientMaterial,
{
    lemma_kinds_within_material(p.board, color, BISHOP as int, KNIGHT as int);
}

/// The list of all legal moves is the lists of the legal moves from each
/// square, one after another.
pub proof fn lemma_legal_moves_by_square(p: Position, n: nat)
    ensures
        legal_among(p, pseudo_legal_moves_below(p, n)) == legal_moves_below(p, n),
        n == 64 ==> legal_moves(p) == legal_moves_below(p, 64),
    decreases n,
{
    reveal(Seq::filter);
    if n > 0 {
        lemma_legal_moves_by_square(p, (n - 1) as nat);
        Seq::filter_distributes_over_add(
            pseudo_legal_moves_below(p, (n - 1) as nat),
            pseudo_legal_moves(p, n - 1),
            legality(p),
        );
    }
}

/// The starting position is sound: every game that starts there and goes
/// on by legal moves stays sound.
pub proof fn lemma_initial_position_sound()
    ensures
        sound(initial_position()),
{
    let p = initial_position();
    assert(p.wf());
    assert(kings_tracked(p));
    assert forall|kind: int, i: int|
        KNIGHT <= kind <= KING && 0 <= i < directions(kind).len() implies !#[trigger] attacks_from(
        p,
        4,
        BLACK as int,
        kind,
        i,
    ) by {
        let d = directions(kind)[i];
        let next = step(4, d.0, d.1);
        if next != OFF_BOARD {
            assert(0 <= next < 64);
            assert(p.board[next] == initial_piece(next));
        }
    }
}

} // verus!
