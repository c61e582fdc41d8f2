//! Attack and capture are two views of one fact: a square is attacked
//! exactly when a piece standing on it could be captured.

use vstd::prelude::*;
use crate::mailbox::{step, OFF_BOARD};
use crate::moves::MoveView;
use crate::piece::{BLACK, EMPTY, KING, KNIGHT, PAWN, WHITE};
use crate::position::{forward, forward_rows, Position};
use crate::rules::{
    attacked, attacks_from, capture, castle_moves, directions, first_occupied, pawn_attacks_from,
    pawn_captures, pawn_en_passant, pawn_moves, pawn_pushes, pseudo_legal_moves, quiet, ray_moves,
    slides, step_moves, steps_left,
};

verus! {

/// The move captures what stands on `sq`.
pub open spec fn is_capture_on(m: MoveView, sq: int) -> bool {
    m.to == sq && m.is_capture() && !m.is_ep_capture()
}

/// Some move of the list captures what stands on `sq`.
pub open spec fn captures_on(moves: Seq<MoveView>, sq: int) -> bool {
    exists|i: int| 0 <= i < moves.len() && is_capture_on(#[trigger] moves[i], sq)
}

/// Some pseudo-legal move of the side to move captures what stands on `sq`.
pub open spec fn can_capture_on(p: Position, sq: int) -> bool {
    exists|from: int| 0 <= from < 64 && #[trigger] captures_on(pseudo_legal_moves(p, from), sq)
}

/// `q` is `p` as the opponents of `color` meet it on their turn when a
/// piece of `color` stands on `sq`: the two agree on every other square.
pub open spec fn poses(p: Position, q: Position, sq: int, color: int) -> bool {
    &&& q.board.len() == 64
    &&& forall|s: int| 0 <= s < 64 && s != sq ==> #[trigger] q.board[s] == p.board[s]
    &&& !q.board[sq].is_empty()
    &&& q.board[sq].color == color
    &&& q.turn == 1 - color
}

proof fn lemma_captures_on_add(a: Seq<MoveView>, b: Seq<MoveView>, sq: int)
    ensures
        captures_on(a + b, sq) <==> captures_on(a, sq) || captures_on(b, sq),
{
    if captures_on(a, sq) {
        let i = choose|i: int| 0 <= i < a.len() && is_capture_on(#[trigger] a[i], sq);
        assert((a + b)[i] == a[i]);
    }
    if captures_on(b, sq) {
        let i = choose|i: int| 0 <= i < b.len() && is_capture_on(#[trigger] b[i], sq);
        assert((a + b)[a.len() + i] == b[i]);
    }
    if captures_on(a + b, sq) {
        let i = choose|i: int| 0 <= i < (a + b).len() && is_capture_on(#[trigger] (a + b)[i], sq);
        if i < a.len() {
            assert(a[i] == (a + b)[i]);
        } else {
            assert(b[i - a.len()] == (a + b)[i]);
        }
    }
}

/// A step back undoes a step.
proof fn lemma_step_back(sq: int, dr: int, dc: int)
    requires
        0 <= sq < 64,
        step(sq, dr, dc) != OFF_BOARD,
    ensures
        0 <= step(sq, dr, dc) < 64,
        step(step(sq, dr, dc), -dr, -dc) == sq,
{
}

/// A step uses up the way to the edge, and none is left off the board.
proof fn lemma_step_nearer_edge(sq: int, dr: int, dc: int)
    requires
        0 <= sq < 64,
        dr != 0 || dc != 0,
        step(sq, dr, dc) != OFF_BOARD,
    ensures
        0 <= steps_left(step(sq, dr, dc), dr, dc) < steps_left(sq, dr, dc),
{
}

/// The steps of each kind come in opposite pairs: the last is the first
/// reversed, and so on inward.
pub proof fn lemma_directions_mirror(kind: int, i: int)
    requires
        0 <= i < directions(kind).len(),
    ensures
        directions(kind)[directions(kind).len() - 1 - i].0 == -directions(kind)[i].0,
        directions(kind)[directions(kind).len() - 1 - i].1 == -directions(kind)[i].1,
{
}

/// If the walk from `sq` meets `hit` first, the walk back from `hit`
/// ends in a capture on `sq`.
proof fn lemma_hit_captures(
    p: Position,
    q: Position,
    sq: int,
    color: int,
    hit: int,
    cur: int,
    dr: int,
    dc: int,
    slide: bool,
)
    requires
        p.board.len() == 64,
        poses(p, q, sq, color),
        0 <= sq < 64,
        0 <= cur < 64,
        hit != OFF_BOARD,
        first_occupied(p.board, cur, dr, dc, slide) == hit,
        cur == sq || (steps_left(cur, dr, dc) < steps_left(sq, dr, dc) && p.board[cur].is_empty()
            && slide && captures_on(ray_moves(q, hit, cur, -dr, -dc, slide), sq)),
    ensures
        0 <= hit < 64,
        hit != sq,
        !p.board[hit].is_empty(),
        captures_on(ray_moves(q, hit, hit, -dr, -dc, slide), sq),
    decreases steps_left(cur, dr, dc),
{
    let next = step(cur, dr, dc);
    lemma_step_back(cur, dr, dc);
    lemma_step_nearer_edge(cur, dr, dc);
    let back = ray_moves(q, hit, next, -dr, -dc, slide);
    if cur == sq {
        assert(back =~= seq![capture(hit, sq)]);
        assert(is_capture_on(back[0], sq));
    } else {
        let rest = ray_moves(q, hit, cur, -dr, -dc, slide);
        assert(q.board[cur] == p.board[cur]);
        assert(back == seq![quiet(hit, cur)] + rest);
        lemma_captures_on_add(seq![quiet(hit, cur)], rest, sq);
    }
    assert(captures_on(back, sq));
    if p.board[next].kind != EMPTY {
        assert(hit == next);
    } else {
        lemma_hit_captures(p, q, sq, color, hit, next, dr, dc, slide);
    }
}

/// If the walk from `from` ends in a capture on `sq`, the walk back from
/// `sq` meets `from` first.
proof fn lemma_capture_is_hit(
    p: Position,
    q: Position,
    sq: int,
    color: int,
    from: int,
    cur: int,
    dr: int,
    dc: int,
    slide: bool,
)
    requires
        p.board.len() == 64,
        poses(p, q, sq, color),
        0 <= sq < 64,
        0 <= from < 64,
        from != sq,
        !p.board[from].is_empty(),
        0 <= cur < 64,
        captures_on(ray_moves(q, from, cur, dr, dc, slide), sq),
        cur == from || (p.board[cur].is_empty() && cur != sq && slide && first_occupied(
            p.board,
            cur,
            -dr,
            -dc,
            slide,
        ) == from),
    ensures
        first_occupied(p.board, sq, -dr, -dc, slide) == from,
    decreases steps_left(cur, dr, dc),
{
    let moves = ray_moves(q, from, cur, dr, dc, slide);
    let i = choose|i: int| 0 <= i < moves.len() && is_capture_on(#[trigger] moves[i], sq);
    let next = step(cur, dr, dc);
    assert(next != OFF_BOARD && (dr != 0 || dc != 0));
    lemma_step_back(cur, dr, dc);
    lemma_step_nearer_edge(cur, dr, dc);
    assert(first_occupied(p.board, next, -dr, -dc, slide) == from);
    if q.board[next].kind != EMPTY {
        assert(moves.len() == 1 && moves[0] == capture(from, next));
        assert(next == sq);
    } else {
        assert(next != sq);
        assert(p.board[next] == q.board[next]);
        let rest = ray_moves(q, from, next, dr, dc, slide);
        if slide {
            assert(moves == seq![quiet(from, next)] + rest);
            lemma_captures_on_add(seq![quiet(from, next)], rest, sq);
            assert(captures_on(rest, sq));
            lemma_capture_is_hit(p, q, sq, color, from, next, dr, dc, slide);
        } else {
            assert(moves =~= seq![quiet(from, next)]);
            assert(false);
        }
    }
}

/// A capture along one of the first `n` directions is a capture among the
/// moves along all of them.
proof fn lemma_ray_in_step_moves(q: Position, from: int, n: nat, j: int, sq: int)
    requires
        0 <= j < n,
        captures_on(
            ray_moves(
                q,
                from,
                from,
                directions(q.board[from].kind)[j].0,
                directions(q.board[from].kind)[j].1,
                slides(q.board[from].kind),
            ),
            sq,
        ),
    ensures
        captures_on(step_moves(q, from, n), sq),
    decreases n,
{
    let kind = q.board[from].kind;
    let d = directions(kind)[n - 1];
    let before = step_moves(q, from, (n - 1) as nat);
    let last = ray_moves(q, from, from, d.0, d.1, slides(kind));
    lemma_captures_on_add(before, last, sq);
    if j < n - 1 {
        lemma_ray_in_step_moves(q, from, (n - 1) as nat, j, sq);
    }
}

/// A capture among the moves along the first `n` directions is a capture
/// along one of them.
proof fn lemma_step_moves_pick_ray(q: Position, from: int, n: nat, sq: int) -> (j: int)
    requires
        captures_on(step_moves(q, from, n), sq),
    ensures
        0 <= j < n,
        captures_on(
            ray_moves(
                q,
                from,
                from,
                directions(q.board[from].kind)[j].0,
                directions(q.board[from].kind)[j].1,
                slides(q.board[from].kind),
            ),
            sq,
        ),
    decreases n,
{
    let kind = q.board[from].kind;
    if n == 0 {
        assert(false);
        0
    } else {
        let d = directions(kind)[n - 1];
        let before = step_moves(q, from, (n - 1) as nat);
        let last = ray_moves(q, from, from, d.0, d.1, slides(kind));
        lemma_captures_on_add(before, last, sq);
        if captures_on(last, sq) {
            n - 1
        } else {
            lemma_step_moves_pick_ray(q, from, (n - 1) as nat, sq)
        }
    }
}

/// A pawn that attacks `sq` has a capture on `sq`.
proof fn lemma_pawn_attack_captures(p: Position, q: Position, sq: int, color: int, dc: int)
    requires
        p.wf(),
        poses(p, q, sq, color),
        0 <= sq < 64,
        color == WHITE || color == BLACK,
        dc == -1 || dc == 1,
        pawn_attacks_from(p, sq, color, dc),
    ensures
        0 <= step(sq, forward_rows(color), dc) < 64,
        captures_on(pseudo_legal_moves(q, step(sq, forward_rows(color), dc)), sq),
{
    let from = step(sq, forward_rows(color), dc);
    let next = from + forward(q.turn);
    assert(p.board[from].wf());
    assert(q.board[from] == p.board[from]);
    assert(step(next, 0, -dc) == sq);
    let found = pawn_captures(q, from, next, -dc);
    assert(found.len() > 0 && is_capture_on(found[0], sq));
    let a = pawn_captures(q, from, next, -1);
    let b = pawn_captures(q, from, next, 1);
    lemma_captures_on_add(a, b, sq);
    lemma_captures_on_add(a + b, pawn_pushes(q, from, next), sq);
    lemma_captures_on_add(a + b + pawn_pushes(q, from, next), pawn_en_passant(q, from, next, -1), sq);
    lemma_captures_on_add(
        a + b + pawn_pushes(q, from, next) + pawn_en_passant(q, from, next, -1),
        pawn_en_passant(q, from, next, 1),
        sq,
    );
}

/// A pawn that has a capture on `sq` attacks `sq`.
proof fn lemma_pawn_capture_attacks(p: Position, q: Position, sq: int, color: int, from: int)
    requires
        p.wf(),
        poses(p, q, sq, color),
        0 <= sq < 64,
        0 <= from < 64,
        from != sq,
        color == WHITE || color == BLACK,
        p.board[from].kind == PAWN,
        p.board[from].color == 1 - color,
        captures_on(pawn_moves(q, from), sq),
    ensures
        pawn_attacks_from(p, sq, color, -1) || pawn_attacks_from(p, sq, color, 1),
{
    let next = from + forward(q.turn);
    let a = pawn_captures(q, from, next, -1);
    let b = pawn_captures(q, from, next, 1);
    let c = pawn_pushes(q, from, next);
    let d = pawn_en_passant(q, from, next, -1);
    let e = pawn_en_passant(q, from, next, 1);
    lemma_captures_on_add(a, b, sq);
    lemma_captures_on_add(a + b, c, sq);
    lemma_captures_on_add(a + b + c, d, sq);
    lemma_captures_on_add(a + b + c + d, e, sq);
    assert(!captures_on(c, sq));
    assert(!captures_on(d, sq));
    assert(!captures_on(e, sq));
    if captures_on(a, sq) {
        assert(step(next, 0, -1) == sq);
        assert(step(sq, forward_rows(color), 1) == from);
        assert(pawn_attacks_from(p, sq, color, 1));
    } else {
        assert(captures_on(b, sq));
        assert(step(next, 0, 1) == sq);
        assert(step(sq, forward_rows(color), -1) == from);
        assert(pawn_attacks_from(p, sq, color, -1));
    }
}

/// A square is attacked by the opponents of `color` exactly when, with a
/// piece of `color` standing on it and the opponents to move, one of their
/// pseudo-legal moves captures that piece.
pub proof fn lemma_attacked_iff_capturable(p: Position, q: Position, sq: int, color: int)
    requires
        p.wf(),
        poses(p, q, sq, color),
        0 <= sq < 64,
        color == WHITE || color == BLACK,
    ensures
        attacked(p, sq, color) <==> can_capture_on(q, sq),
{
    if attacked(p, sq, color) {
        if pawn_attacks_from(p, sq, color, -1) {
            lemma_pawn_attack_captures(p, q, sq, color, -1);
            assert(captures_on(pseudo_legal_moves(q, step(sq, forward_rows(color), -1)), sq));
        } else if pawn_attacks_from(p, sq, color, 1) {
            lemma_pawn_attack_captures(p, q, sq, color, 1);
            assert(captures_on(pseudo_legal_moves(q, step(sq, forward_rows(color), 1)), sq));
        } else {
            let (kind, i) = choose|kind: int, i: int|
                KNIGHT <= kind <= KING && 0 <= i < directions(kind).len() && #[trigger] attacks_from(
                    p,
                    sq,
                    color,
                    kind,
                    i,
                );
            let d = directions(kind)[i];
            let n = directions(kind).len();
            let hit = first_occupied(p.board, sq, d.0, d.1, slides(kind));
            lemma_hit_captures(p, q, sq, color, hit, sq, d.0, d.1, slides(kind));
            lemma_directions_mirror(kind, i);
            assert(q.board[hit] == p.board[hit]);
            assert(p.board[hit].wf());
            lemma_ray_in_step_moves(q, hit, n, n - 1 - i, sq);
            lemma_captures_on_add(step_moves(q, hit, n), castle_moves(q, hit), sq);
            assert(captures_on(pseudo_legal_moves(q, hit), sq));
        }
        assert(can_capture_on(q, sq));
    }
    if can_capture_on(q, sq) {
        let from = choose|from: int|
            0 <= from < 64 && #[trigger] captures_on(pseudo_legal_moves(q, from), sq);
        let piece = q.board[from];
        assert(pseudo_legal_moves(q, from).len() > 0);
        assert(from != sq);
        assert(piece == p.board[from]);
        assert(piece.wf());
        if piece.kind == PAWN {
            lemma_pawn_capture_attacks(p, q, sq, color, from);
        } else {
            let n = directions(piece.kind).len();
            lemma_captures_on_add(step_moves(q, from, n), castle_moves(q, from), sq);
            assert(!captures_on(castle_moves(q, from), sq));
            let j = lemma_step_moves_pick_ray(q, from, n, sq);
            let d = directions(piece.kind)[j];
            lemma_capture_is_hit(p, q, sq, color, from, from, d.0, d.1, slides(piece.kind));
            lemma_directions_mirror(piece.kind, j);
            assert(attacks_from(p, sq, color, piece.kind, n - 1 - j));
        }
    }
}

} // verus!
