//! Move generation: pseudo-legal moves square by square, the test whether a
//! square is attacked, and the filter that keeps the legal moves.

use vstd::prelude::*;
use crate::game::Game;
use crate::mailbox::{lemma_grid_lookup_is_step, step, Mailbox, OFF_BOARD};
use crate::moves::{
    lemma_move_views_push, move_views, Move, MoveView, CAPTURE, DOUBLE_PAWN_PUSH, EP_CAPTURE,
    KING_CASTLE, KNIGHT_PROMOTION, KNIGHT_PROMOTION_CAP, QUEEN_CASTLE, QUIET_MOVE,
};
use crate::piece::{Piece, BLACK, EMPTY, KING, KNIGHT, PAWN, ROOK, WHITE};
use crate::rules::{
    all_admitted, attacked, attacks_from, capture, castle_moves, directions, first_occupied,
    is_legal, legal_among, lemma_legal_among_push, pawn_attacks_from, pawn_captures, pawn_moves,
    pawn_pushes, promotions, pseudo_legal_moves, quiet, ray_moves, slides, step_moves, steps_left,
};

verus! {

/// Every step of every kind spans at most two rows and two columns, and
/// none stands still.
pub proof fn lemma_directions_bounded(kind: int, i: int)
    requires
        0 <= i < directions(kind).len(),
    ensures
        -2 <= directions(kind)[i].0 <= 2,
        -2 <= directions(kind)[i].1 <= 2,
        directions(kind)[i].0 != 0 || directions(kind)[i].1 != 0,
        -21 <= 10 * directions(kind)[i].0 + directions(kind)[i].1 <= 21,
{
}

/// The tables that drive generation: for each kind from pawn to king (the
/// row for the pawn is unused) its steps in grid units, how many they are,
/// and whether the kind slides.
pub struct MoveGenerator {
    piece_offset: [[isize; 8]; 6],
    piece_offsets: [usize; 6],
    sliding_piece: [bool; 6],
}

impl MoveGenerator {
    /// The tables hold the steps of `directions` and the kinds of `slides`.
    pub closed spec fn wf(&self) -> bool {
        &&& forall|kind: int|
            PAWN <= kind <= KING ==> #[trigger] self.piece_offsets[kind - 1] == directions(kind).len()
        &&& forall|kind: int|
            PAWN <= kind <= KING ==> #[trigger] self.sliding_piece[kind - 1] == slides(kind)
        &&& forall|kind: int, i: int|
            PAWN <= kind <= KING && 0 <= i < directions(kind).len() ==> #[trigger] self.piece_offset[kind
                - 1][i] == 10 * directions(kind)[i].0 + directions(kind)[i].1
    }

    /// The tables of standard chess.
    pub fn new() -> (g: MoveGenerator)
        ensures
            g.wf(),
    {
        let piece_offset: [[isize; 8]; 6] = [
            [0, 0, 0, 0, 0, 0, 0, 0],
            [-21, -19, -12, -8, 8, 12, 19, 21],
            [-11, -9, 9, 11, 0, 0, 0, 0],
            [-10, -1, 1, 10, 0, 0, 0, 0],
            [-11, -10, -9, -1, 1, 9, 10, 11],
            [-11, -10, -9, -1, 1, 9, 10, 11],
        ];
        let piece_offsets: [usize; 6] = [0, 8, 4, 4, 8, 8];
        let sliding_piece: [bool; 6] = [false, false, true, true, true, false];
        MoveGenerator { piece_offset, piece_offsets, sliding_piece }
    }

    /// The pseudo-legal moves of whatever stands on `square`; none if the
    /// square is empty or holds a piece of the side that is not to move.
    pub fn generate_pseudo_legal_moves(&self, game: &Game, square: usize) -> (moves: Vec<Move>)
        requires
            self.wf(),
            game.wf(),
            square < 64,
        ensures
            move_views(moves@) == pseudo_legal_moves(game@, square as int),
    {
        if game.board[square].get_type() == EMPTY || game.board[square].get_color() != game.turn {
            let moves: Vec<Move> = Vec::new();
            assert(move_views(moves@) =~= Seq::<MoveView>::empty());
            return moves;
        }
        if game.board[square].get_type() == PAWN {
            self.generate_pawn_moves(game, square)
        } else {
            self.generate_non_pawn_moves(game, square)
        }
    }

    /// The pseudo-legal moves of the pawn of the side to move on `square`.
    pub fn generate_pawn_moves(&self, game: &Game, square: usize) -> (moves: Vec<Move>)
        requires
            game.wf(),
            square < 64,
            game@.board[square as int].kind == PAWN,
        ensures
            move_views(moves@) == pawn_moves(game@, square as int),
    {
        let mut pseudo_legal_moves: Vec<Move> = Vec::new();
        let ghost p = game@;
        let ghost sq = square as int;
        let next_square: usize = if game.turn == WHITE { square - 8 } else { square + 8 };
        let ghost next = next_square as int;
        let promotes: bool = game.get_row(next_square) == 0 || game.get_row(next_square) == 7;
        assert(move_views(pseudo_legal_moves@) =~= Seq::<MoveView>::empty());

        if self.pawn_can_capture_left(game, next_square) {
            if promotes {
                Self::push_promotions(&mut pseudo_legal_moves, square, next_square - 1, KNIGHT_PROMOTION_CAP);
            } else {
                Self::push_move(&mut pseudo_legal_moves, square, next_square - 1, CAPTURE);
            }
        }
        assert(move_views(pseudo_legal_moves@) =~= pawn_captures(p, sq, next, -1));
        if self.pawn_can_capture_right(game, next_square) {
            if promotes {
                Self::push_promotions(&mut pseudo_legal_moves, square, next_square + 1, KNIGHT_PROMOTION_CAP);
            } else {
                Self::push_move(&mut pseudo_legal_moves, square, next_square + 1, CAPTURE);
            }
        }
        assert(move_views(pseudo_legal_moves@) =~= pawn_captures(p, sq, next, -1) + pawn_captures(
            p,
            sq,
            next,
            1,
        ));

        if game.board[next_square].get_type() == EMPTY {
            if promotes {
                Self::push_promotions(&mut pseudo_legal_moves, square, next_square, KNIGHT_PROMOTION);
            } else {
                Self::push_move(&mut pseudo_legal_moves, square, next_square, QUIET_MOVE);
                if game.get_row(square) == 1 || game.get_row(square) == 6 {
                    let second_square: usize = if game.turn == WHITE {
                        next_square - 8
                    } else {
                        next_square + 8
                    };
                    if game.board[second_square].get_type() == EMPTY {
                        Self::push_move(&mut pseudo_legal_moves, square, second_square, DOUBLE_PAWN_PUSH);
                    }
                }
            }
        }
        assert(move_views(pseudo_legal_moves@) =~= pawn_captures(p, sq, next, -1) + pawn_captures(
            p,
            sq,
            next,
            1,
        ) + pawn_pushes(p, sq, next));

        if game.possible_ep_capture < 64 {
            if game.get_column(square) != 0 && square - 1 == game.possible_ep_capture {
                Self::push_move(&mut pseudo_legal_moves, square, next_square - 1, EP_CAPTURE);
            }
            if game.get_column(square) != 7 && square + 1 == game.possible_ep_capture {
                Self::push_move(&mut pseudo_legal_moves, square, next_square + 1, EP_CAPTURE);
            }
        }
        assert(move_views(pseudo_legal_moves@) =~= pawn_moves(p, sq));
        pseudo_legal_moves
    }

    /// Appends one move.
    fn push_move(moves: &mut Vec<Move>, from: usize, to: usize, flags: usize)
        requires
            from < 64,
            to < 64,
            flags < 16,
        ensures
            move_views(final(moves)@) == move_views(old(moves)@).push(
                MoveView { from: from as int, to: to as int, flags: flags as int },
            ),
    {
        let mv = Move::new(from, to, flags);
        proof {
            lemma_move_views_push(moves@, mv);
        }
        moves.push(mv);
    }

    /// Appends the four promotions whose codes start at `base`.
    fn push_promotions(moves: &mut Vec<Move>, from: usize, to: usize, base: usize)
        requires
            from < 64,
            to < 64,
            base <= 12,
        ensures
            move_views(final(moves)@) == move_views(old(moves)@) + promotions(
                from as int,
                to as int,
                base as int,
            ),
    {
        Self::push_move(moves, from, to, base);
        Self::push_move(moves, from, to, base + 1);
        Self::push_move(moves, from, to, base + 2);
        Self::push_move(moves, from, to, base + 3);
        assert(move_views(moves@) =~= move_views(old(moves)@) + promotions(
            from as int,
            to as int,
            base as int,
        ));
    }

    /// A piece of the side that is not to move stands left of `next_square`,
    /// in the same row.
    pub fn pawn_can_capture_left(&self, game: &Game, next_square: usize) -> (b: bool)
        requires
            next_square < 64,
        ensures
            b == ({
                let to = step(next_square as int, 0, -1);
                to != OFF_BOARD && !game@.board[to].is_empty() && game@.board[to].color != game@.turn
            }),
    {
        game.get_column(next_square) != 0 && game.board[next_square - 1].get_color() != game.turn
            && game.board[next_square - 1].get_type() != EMPTY
    }

    /// A piece of the side that is not to move stands right of
    /// `next_square`, in the same row.
    pub fn pawn_can_capture_right(&self, game: &Game, next_square: usize) -> (b: bool)
        requires
            next_square < 64,
        ensures
            b == ({
                let to = step(next_square as int, 0, 1);
                to != OFF_BOARD && !game@.board[to].is_empty() && game@.board[to].color != game@.turn
            }),
    {
        game.get_column(next_square) != 7 && game.board[next_square + 1].get_color() != game.turn
            && game.board[next_square + 1].get_type() != EMPTY
    }

    /// Appends the moves of the piece on `square` along the `j`-th direction
    /// of `kind`.
    fn push_ray_moves(
        &self,
        mailbox: &Mailbox,
        game: &Game,
        moves: &mut Vec<Move>,
        square: usize,
        kind: usize,
        j: usize,
    )
        requires
            self.wf(),
            mailbox.wf(),
            square < 64,
            KNIGHT <= kind <= KING,
            j < directions(kind as int).len(),
        ensures
            move_views(final(moves)@) == move_views(old(moves)@) + ray_moves(
                game@,
                square as int,
                square as int,
                directions(kind as int)[j as int].0,
                directions(kind as int)[j as int].1,
                slides(kind as int),
            ),
    {
        let ghost p = game@;
        let ghost sq = square as int;
        let ghost d = directions(kind as int)[j as int];
        let offset: isize = self.piece_offset[kind - 1][j];
        let slide: bool = self.sliding_piece[kind - 1];
        let ghost target = move_views(moves@) + ray_moves(p, sq, sq, d.0, d.1, slide);
        proof {
            lemma_directions_bounded(kind as int, j as int);
        }
        let mut to_square: isize = square as isize;
        loop
            invariant_except_break
                mailbox.wf(),
                p == game@,
                sq == square,
                square < 64,
                0 <= to_square < 64,
                offset == 10 * d.0 + d.1,
                -21 <= offset <= 21,
                -2 <= d.0 <= 2,
                -2 <= d.1 <= 2,
                d.0 != 0 || d.1 != 0,
                move_views(moves@) + ray_moves(p, sq, to_square as int, d.0, d.1, slide) == target,
            ensures
                move_views(moves@) == target,
            decreases steps_left(to_square as int, d.0, d.1),
        {
            let ghost before = move_views(moves@);
            let ghost cur = to_square as int;
            proof {
                lemma_grid_lookup_is_step(cur, d.0, d.1);
            }
            to_square = mailbox.get_square_with_offset(to_square as usize, offset);
            let ghost next = to_square as int;
            if to_square == OFF_BOARD {
                assert(ray_moves(p, sq, cur, d.0, d.1, slide) =~= Seq::<MoveView>::empty());
                assert(before + Seq::<MoveView>::empty() =~= before);
                break;
            }
            if game.board[to_square as usize].get_type() != EMPTY {
                if game.board[to_square as usize].get_color() != game.turn {
                    Self::push_move(moves, square, to_square as usize, CAPTURE);
                    assert(ray_moves(p, sq, cur, d.0, d.1, slide) =~= seq![capture(sq, next)]);
                    assert(before + seq![capture(sq, next)] =~= before.push(capture(sq, next)));
                } else {
                    assert(ray_moves(p, sq, cur, d.0, d.1, slide) =~= Seq::<MoveView>::empty());
                    assert(before + Seq::<MoveView>::empty() =~= before);
                }
                break;
            }
            Self::push_move(moves, square, to_square as usize, QUIET_MOVE);
            if !slide {
                assert(ray_moves(p, sq, cur, d.0, d.1, slide) =~= seq![quiet(sq, next)]);
                assert(before + seq![quiet(sq, next)] =~= before.push(quiet(sq, next)));
                break;
            }
            proof {
                let rest = ray_moves(p, sq, next, d.0, d.1, slide);
                assert(ray_moves(p, sq, cur, d.0, d.1, slide) == seq![quiet(sq, next)] + rest);
                assert(before + (seq![quiet(sq, next)] + rest) =~= before.push(quiet(sq, next)) + rest);
            }
        }
    }

    /// The pseudo-legal moves of the knight, bishop, rook, queen or king on
    /// `square`: its steps and slides, then, for a king that has never moved,
    /// its castles.
    pub fn generate_non_pawn_moves(&self, game: &Game, square: usize) -> (moves: Vec<Move>)
        requires
            self.wf(),
            game.wf(),
            square < 64,
            KNIGHT <= game@.board[square as int].kind <= KING,
            game@.board[square as int].color == game@.turn,
        ensures
            move_views(moves@) == step_moves(
                game@,
                square as int,
                directions(game@.board[square as int].kind).len(),
            ) + castle_moves(game@, square as int),
    {
        let mut pseudo_legal_moves: Vec<Move> = Vec::new();
        let mailbox = Mailbox::new();
        let ghost p = game@;
        let ghost sq = square as int;
        let kind: usize = game.board[square].get_type();
        assert(move_views(pseudo_legal_moves@) =~= step_moves(p, sq, 0));
        let mut j: usize = 0;
        while j < self.piece_offsets[kind - 1]
            invariant
                self.wf(),
                mailbox.wf(),
                game.wf(),
                p == game@,
                sq == square,
                square < 64,
                kind == p.board[sq].kind,
                KNIGHT <= kind <= KING,
                0 <= j <= directions(kind as int).len() <= 8,
                move_views(pseudo_legal_moves@) == step_moves(p, sq, j as nat),
            decreases directions(kind as int).len() - j,
        {
            self.push_ray_moves(&mailbox, game, &mut pseudo_legal_moves, square, kind, j);
            j += 1;
        }
        if kind == KING && !game.board[square].has_moved() {
            let king_rook: Piece = if game.turn == WHITE { game.board[63] } else { game.board[7] };
            let queen_rook: Piece = if game.turn == WHITE { game.board[56] } else { game.board[0] };
            if queen_rook.get_type() == ROOK && !queen_rook.has_moved() {
                assert(p.may_castle_from(sq));
                if game.board[square - 1].get_type() == EMPTY && game.board[square - 2].get_type()
                    == EMPTY && game.board[square - 3].get_type() == EMPTY {
                    let mv = Move::new(square, square - 2, QUEEN_CASTLE);
                    proof {
                        lemma_move_views_push(pseudo_legal_moves@, mv);
                    }
                    pseudo_legal_moves.push(mv);
                }
            }
            if king_rook.get_type() == ROOK && !king_rook.has_moved() {
                assert(p.may_castle_from(sq));
                if game.board[square + 1].get_type() == EMPTY && game.board[square + 2].get_type()
                    == EMPTY {
                    let mv = Move::new(square, square + 2, KING_CASTLE);
                    proof {
                        lemma_move_views_push(pseudo_legal_moves@, mv);
                    }
                    pseudo_legal_moves.push(mv);
                }
            }
        }
        assert(move_views(pseudo_legal_moves@) =~= step_moves(p, sq, directions(kind as int).len())
            + castle_moves(p, sq));
        pseudo_legal_moves
    }

    /// Keeps the legal moves of a list of pseudo-legal moves, in their
    /// order. Each move is tried on a copy of the game: it is legal if the
    /// mover's king is not attacked afterwards, and a castle only if the
    /// king's square and the square it crosses are not attacked before.
    /// The moves must have the shape of pseudo-legal moves, as those of
    /// `generate_pseudo_legal_moves` have.
    pub fn filter_pseudo_legal_moves(&self, game: &Game, pseudo_legal_moves: Vec<Move>) -> (legal_moves:
        Vec<Move>)
        requires
            self.wf(),
            game.wf(),
            game@.clock < usize::MAX,
            all_admitted(game@, move_views(pseudo_legal_moves@)),
        ensures
            move_views(legal_moves@) == legal_among(game@, move_views(pseudo_legal_moves@)),
    {
        let mut legal_moves: Vec<Move> = Vec::new();
        let ghost p = game@;
        let ghost candidates = move_views(pseudo_legal_moves@);
        let mut i: usize = 0;
        proof {
            reveal(Seq::filter);
            assert(candidates.take(0) =~= Seq::<MoveView>::empty());
            assert(move_views(legal_moves@) =~= legal_among(p, candidates.take(0)));
        }
        while i < pseudo_legal_moves.len()
            invariant
                self.wf(),
                game.wf(),
                p == game@,
                p.clock < usize::MAX,
                candidates == move_views(pseudo_legal_moves@),
                all_admitted(p, candidates),
                0 <= i <= pseudo_legal_moves.len(),
                move_views(legal_moves@) == legal_among(p, candidates.take(i as int)),
            decreases pseudo_legal_moves.len() - i,
        {
            let mv: Move = pseudo_legal_moves[i];
            let ghost m = mv@;
            proof {
                assert(m == candidates[i as int]);
                assert(p.admits(m));
                assert(candidates.take(i + 1) =~= candidates.take(i as int).push(m));
                lemma_legal_among_push(p, candidates.take(i as int), m);
            }
            let mut legal: bool = true;
            if mv.is_castle() {
                let square_besides_king: usize = if mv.is_queen_castle() {
                    mv.get_from() - 1
                } else {
                    mv.get_from() + 1
                };
                if self.is_attacked(game, mv.get_from(), game.turn) || self.is_attacked(
                    game,
                    square_besides_king,
                    game.turn,
                ) {
                    legal = false;
                }
            }
            if legal {
                let game_copy: Game = game.after_move(mv);
                if self.is_attacked(&game_copy, game_copy.king_square[game.turn], game.turn) {
                    legal = false;
                }
            }
            assert(legal == is_legal(p, m));
            if legal {
                proof {
                    lemma_move_views_push(legal_moves@, mv);
                }
                legal_moves.push(mv);
            }
            i += 1;
        }
        assert(candidates.take(pseudo_legal_moves.len() as int) =~= candidates);
        legal_moves
    }

    /// Whether some piece that does not belong to `color` could capture on
    /// `square`. The test walks from `square` outward, as each kind steps,
    /// to the first piece it meets; that this finds exactly the pieces
    /// that could capture there is `lemma_attacked_iff_capturable`.
    pub fn is_attacked(&self, game: &Game, square: usize, color: usize) -> (b: bool)
        requires
            self.wf(),
            game.wf(),
            square < 64,
            color <= 1,
        ensures
            b == attacked(game@, square as int, color as int),
    {
        let mailbox = Mailbox::new();
        let ghost p = game@;
        let ghost sq = square as int;
        let mut piece: usize = KNIGHT;
        while piece <= KING
            invariant
                self.wf(),
                mailbox.wf(),
                game.wf(),
                p == game@,
                sq == square,
                square < 64,
                color <= 1,
                KNIGHT <= piece <= KING + 1,
                forall|kind: int, i: int|
                    KNIGHT <= kind < piece && 0 <= i < directions(kind).len() ==> !#[trigger] attacks_from(
                        p,
                        sq,
                        color as int,
                        kind,
                        i,
                    ),
            decreases KING + 1 - piece,
        {
            let mut i: usize = 0;
            while i < self.piece_offsets[piece - 1]
                invariant
                    self.wf(),
                    mailbox.wf(),
                    game.wf(),
                    p == game@,
                    sq == square,
                    square < 64,
                    color <= 1,
                    KNIGHT <= piece <= KING,
                    0 <= i <= directions(piece as int).len() <= 8,
                    forall|j: int| 0 <= j < i ==> !#[trigger] attacks_from(p, sq, color as int, piece as int, j),
                decreases directions(piece as int).len() - i,
            {
                let offset: isize = self.piece_offset[piece - 1][i];
                let slide: bool = self.sliding_piece[piece - 1];
                let ghost d = directions(piece as int)[i as int];
                proof {
                    lemma_directions_bounded(piece as int, i as int);
                }
                let mut to_square: isize = square as isize;
                loop
                    invariant_except_break
                        mailbox.wf(),
                        game.wf(),
                        p == game@,
                        0 <= to_square < 64,
                        offset == 10 * d.0 + d.1,
                        -21 <= offset <= 21,
                        KNIGHT <= piece <= KING,
                        0 <= i < directions(piece as int).len(),
                        d == directions(piece as int)[i as int],
                        slide == slides(piece as int),
                        sq == square,
                        square < 64,
                        -2 <= d.0 <= 2,
                        -2 <= d.1 <= 2,
                        d.0 != 0 || d.1 != 0,
                        first_occupied(p.board, sq, d.0, d.1, slide) == first_occupied(
                            p.board,
                            to_square as int,
                            d.0,
                            d.1,
                            slide,
                        ),
                    ensures
                        !attacks_from(p, sq, color as int, piece as int, i as int),
                    decreases steps_left(to_square as int, d.0, d.1),
                {
                    proof {
                        lemma_grid_lookup_is_step(to_square as int, d.0, d.1);
                    }
                    to_square = mailbox.get_square_with_offset(to_square as usize, offset);
                    if to_square == OFF_BOARD {
                        break;
                    }
                    let attacking_piece = &game.board[to_square as usize];
                    if attacking_piece.get_type() != EMPTY {
                        if attacking_piece.get_color() != color && attacking_piece.get_type() == piece {
                            assert(attacks_from(p, sq, color as int, piece as int, i as int));
                            return true;
                        }
                        break;
                    }
                    if !slide {
                        break;
                    }
                }
                i += 1;
            }
            piece += 1;
        }
        if !((color == WHITE && square / 8 <= 1) || (color == BLACK && square / 8 >= 6)) {
            let ahead: usize = if color == WHITE { square - 8 } else { square + 8 };
            if square % 8 != 7 {
                let attacker = &game.board[ahead + 1];
                if attacker.get_type() == PAWN && attacker.get_color() != color {
                    assert(pawn_attacks_from(p, sq, color as int, 1));
                    return true;
                }
            }
            if square % 8 != 0 {
                let attacker = &game.board[ahead - 1];
                if attacker.get_type() == PAWN && attacker.get_color() != color {
                    assert(pawn_attacks_from(p, sq, color as int, -1));
                    return true;
                }
            }
        }
        assert(!pawn_attacks_from(p, sq, color as int, 1));
        assert(!pawn_attacks_from(p, sq, color as int, -1));
        false
    }
}

} // verus!
