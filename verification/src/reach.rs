//! Walks along a direction, said without recursion: which squares a walk
//! reaches, which piece it meets first, and which moves it yields.

use vstd::prelude::*;
use crate::mailbox::{step, OFF_BOARD};
use crate::moves::MoveView;
use crate::piece::{PieceView, EMPTY};
use crate::position::Position;
use crate::rules::{capture, first_occupied, quiet, ray_moves, steps_left};

verus! {

/// The square `n` steps of `(dr, dc)` away from `sq`, or `OFF_BOARD`.
pub open spec fn walk(sq: int, dr: int, dc: int, n: int) -> int {
    step(sq, n * dr, n * dc)
}

/// The squares before the `n`-th on the walk from `sq` are empty.
pub open spec fn clear_way(board: Seq<PieceView>, sq: int, dr: int, dc: int, n: int) -> bool {
    forall|k: int| 0 < k < n ==> board[#[trigger] walk(sq, dr, dc, k)].is_empty()
}

/// The walk from `sq` gets as far as its `n`-th square: that square is on
/// the board, only empty squares lie before it, and a walk that does not
/// slide ends with its first step.
pub open spec fn reaches(board: Seq<PieceView>, sq: int, dr: int, dc: int, slide: bool, n: int) -> bool {
    &&& n >= 1
    &&& slide || n == 1
    &&& walk(sq, dr, dc, n) != OFF_BOARD
    &&& clear_way(board, sq, dr, dc, n)
}

/// `m` is the move that the piece on `from` makes onto `to`: a quiet move
/// if the square is empty, a capture if it holds a piece of the side that
/// is not to move.
pub open spec fn lands(p: Position, from: int, to: int, m: MoveView) -> bool {
    if p.board[to].is_empty() {
        m == quiet(from, to)
    } else {
        p.board[to].color != p.turn && m == capture(from, to)
    }
}

/// Walking on from the first square of a walk is walking one step further.
proof fn lemma_walk_on(sq: int, dr: int, dc: int, k: int)
    requires
        0 <= sq < 64,
        step(sq, dr, dc) != OFF_BOARD,
    ensures
        walk(step(sq, dr, dc), dr, dc, k) == walk(sq, dr, dc, k + 1),
{
    assert((k + 1) * dr == k * dr + dr) by (nonlinear_arith);
    assert((k + 1) * dc == k * dc + dc) by (nonlinear_arith);
}

/// The first square of a walk is one step away.
proof fn lemma_walk_one(sq: int, dr: int, dc: int, k: int)
    requires
        k == 1,
    ensures
        walk(sq, dr, dc, k) == step(sq, dr, dc),
{
    assert(k * dr == dr) by (nonlinear_arith)
        requires
            k == 1,
    ;
    assert(k * dc == dc) by (nonlinear_arith)
        requires
            k == 1,
    ;
}

/// A walk that reaches its `n`-th square from the second square on reaches
/// the square after it from the first, if the second square is empty.
proof fn lemma_reaches_on(board: Seq<PieceView>, sq: int, dr: int, dc: int, n: int)
    requires
        0 <= sq < 64,
        step(sq, dr, dc) != OFF_BOARD,
        board[step(sq, dr, dc)].is_empty(),
        reaches(board, step(sq, dr, dc), dr, dc, true, n),
    ensures
        reaches(board, sq, dr, dc, true, n + 1),
        walk(sq, dr, dc, n + 1) == walk(step(sq, dr, dc), dr, dc, n),
{
    let next = step(sq, dr, dc);
    lemma_walk_on(sq, dr, dc, n);
    assert forall|k: int| 0 < k < n + 1 implies board[#[trigger] walk(sq, dr, dc, k)].is_empty() by {
        if k == 1 {
            lemma_walk_one(sq, dr, dc, k);
        } else {
            lemma_walk_on(sq, dr, dc, k - 1);
            assert(board[walk(next, dr, dc, k - 1)].is_empty());
        }
    }
}

/// A walk that reaches its `n`-th square, with `n` above one, reaches the
/// same square from its second square in one step less.
proof fn lemma_reaches_back(board: Seq<PieceView>, sq: int, dr: int, dc: int, n: int)
    requires
        0 <= sq < 64,
        n > 1,
        reaches(board, sq, dr, dc, true, n),
    ensures
        step(sq, dr, dc) != OFF_BOARD,
        board[step(sq, dr, dc)].is_empty(),
        reaches(board, step(sq, dr, dc), dr, dc, true, n - 1),
        walk(step(sq, dr, dc), dr, dc, n - 1) == walk(sq, dr, dc, n),
{
    let next = step(sq, dr, dc);
    assert(board[walk(sq, dr, dc, 1)].is_empty());
    lemma_walk_one(sq, dr, dc, 1);
    assert(next != OFF_BOARD) by {
        assert(n * dr == (n - 1) * dr + dr) by (nonlinear_arith);
        assert(n * dc == (n - 1) * dc + dc) by (nonlinear_arith);
        lemma_between(sq / 8, dr, n);
        lemma_between(sq % 8, dc, n);
    }
    lemma_walk_on(sq, dr, dc, n - 1);
    assert forall|k: int| 0 < k < n - 1 implies board[#[trigger] walk(next, dr, dc, k)].is_empty() by {
        lemma_walk_on(sq, dr, dc, k);
        assert(board[walk(sq, dr, dc, k + 1)].is_empty());
    }
}

/// If a coordinate and its `n`-th step lie on the board, so does its first.
proof fn lemma_between(x: int, d: int, n: int)
    by (nonlinear_arith)
    requires
        0 <= x < 8,
        n >= 1,
        0 <= x + n * d < 8,
    ensures
        0 <= x + d < 8,
{
}

/// The walk meets a piece on `hit` first exactly when it reaches `hit`
/// and `hit` is occupied.
pub proof fn lemma_first_occupied_is_nearest(
    board: Seq<PieceView>,
    sq: int,
    dr: int,
    dc: int,
    slide: bool,
    hit: int,
)
    requires
        board.len() == 64,
        0 <= sq < 64,
        dr != 0 || dc != 0,
        0 <= hit < 64,
    ensures
        first_occupied(board, sq, dr, dc, slide) == hit <==> exists|n: int|
            #[trigger] reaches(board, sq, dr, dc, slide, n) && walk(sq, dr, dc, n) == hit
                && !board[hit].is_empty(),
    decreases steps_left(sq, dr, dc),
{
    let next = step(sq, dr, dc);
    let found = first_occupied(board, sq, dr, dc, slide);
    if found == hit {
        if board[next].kind != EMPTY {
            assert(reaches(board, sq, dr, dc, slide, 1) && walk(sq, dr, dc, 1) == hit);
        } else {
            lemma_first_occupied_is_nearest(board, next, dr, dc, slide, hit);
            let n = choose|n: int|
                #[trigger] reaches(board, next, dr, dc, slide, n) && walk(next, dr, dc, n) == hit;
            lemma_reaches_on(board, sq, dr, dc, n);
            assert(reaches(board, sq, dr, dc, slide, n + 1) && walk(sq, dr, dc, n + 1) == hit);
        }
    }
    if exists|n: int|
        #[trigger] reaches(board, sq, dr, dc, slide, n) && walk(sq, dr, dc, n) == hit
            && !board[hit].is_empty() {
        let n = choose|n: int|
            #[trigger] reaches(board, sq, dr, dc, slide, n) && walk(sq, dr, dc, n) == hit
                && !board[hit].is_empty();
        if n == 1 {
            assert(next == hit);
        } else {
            lemma_reaches_back(board, sq, dr, dc, n);
            assert(reaches(board, next, dr, dc, slide, n - 1) && walk(next, dr, dc, n - 1) == hit);
            lemma_first_occupied_is_nearest(board, next, dr, dc, slide, hit);
        }
    }
}

/// The moves along a walk are exactly the moves onto the squares that the
/// walk reaches: quiet moves onto the empty ones and a capture of the
/// piece it meets, if that belongs to the side that is not to move.
pub proof fn lemma_ray_moves_are_reached(
    p: Position,
    from: int,
    cur: int,
    dr: int,
    dc: int,
    slide: bool,
    m: MoveView,
)
    requires
        p.board.len() == 64,
        0 <= cur < 64,
        dr != 0 || dc != 0,
    ensures
        ray_moves(p, from, cur, dr, dc, slide).contains(m) <==> exists|n: int|
            #[trigger] reaches(p.board, cur, dr, dc, slide, n) && lands(
                p,
                from,
                walk(cur, dr, dc, n),
                m,
            ),
    decreases steps_left(cur, dr, dc),
{
    let next = step(cur, dr, dc);
    let moves = ray_moves(p, from, cur, dr, dc, slide);
    if moves.contains(m) {
        let i = choose|i: int| 0 <= i < moves.len() && moves[i] == m;
        if i == 0 {
            assert(reaches(p.board, cur, dr, dc, slide, 1) && lands(p, from, walk(cur, dr, dc, 1), m));
        } else {
            let rest = ray_moves(p, from, next, dr, dc, slide);
            assert(moves == seq![quiet(from, next)] + rest);
            assert(rest[i - 1] == m);
            lemma_ray_moves_are_reached(p, from, next, dr, dc, slide, m);
            let n = choose|n: int|
                #[trigger] reaches(p.board, next, dr, dc, slide, n) && lands(
                    p,
                    from,
                    walk(next, dr, dc, n),
                    m,
                );
            lemma_reaches_on(p.board, cur, dr, dc, n);
            assert(reaches(p.board, cur, dr, dc, slide, n + 1) && lands(
                p,
                from,
                walk(cur, dr, dc, n + 1),
                m,
            ));
        }
    }
    if exists|n: int|
        #[trigger] reaches(p.board, cur, dr, dc, slide, n) && lands(p, from, walk(cur, dr, dc, n), m) {
        let n = choose|n: int|
            #[trigger] reaches(p.board, cur, dr, dc, slide, n) && lands(
                p,
                from,
                walk(cur, dr, dc, n),
                m,
            );
        if n == 1 {
            assert(moves[0] == m);
        } else {
            lemma_reaches_back(p.board, cur, dr, dc, n);
            assert(reaches(p.board, next, dr, dc, slide, n - 1) && lands(
                p,
                from,
                walk(next, dr, dc, n - 1),
                m,
            ));
            lemma_ray_moves_are_reached(p, from, next, dr, dc, slide, m);
            let rest = ray_moves(p, from, next, dr, dc, slide);
            let i = choose|i: int| 0 <= i < rest.len() && rest[i] == m;
            assert(moves == seq![quiet(from, next)] + rest);
            assert(moves[i + 1] == m);
        }
    }
}

} // verus!
