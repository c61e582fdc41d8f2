//! The game: a position that can be asked for its legal moves, changed by a
//! move, and classified.

use vstd::prelude::*;
use crate::fen::{convert_fen_to_game, fen_parses, fen_position, parse_fen};
use crate::laws::{
    lemma_initial_position_sound, lemma_legal_move_keeps_sound, lemma_pseudo_legal_admitted,
    lemma_pseudo_legal_below_admitted, lemma_pseudo_legal_listed,
};
use crate::movegen::MoveGenerator;
use crate::moves::{
    lemma_move_views_add, move_views, Move, BISHOP_PROMOTION, KNIGHT_PROMOTION, QUEEN_PROMOTION,
    ROOK_PROMOTION,
};
use crate::piece::{
    Piece, PieceView, BISHOP, BLACK, EMPTY, HAS_MOVED, KING, KNIGHT, PAWN, QUEEN, ROOK, WHITE,
};
use crate::position::{
    back_rank, captured_square, castle_rook_from, castle_rook_to, col_of, initial_piece,
    initial_position, king_home, lemma_apply_keeps_wf, promoted_kind, row_of, Position, NO_EP,
};
use crate::rules::{
    count_of, first_answer, game_state, is_kind_of, is_legal, is_piece_of, is_pseudo_legal,
    legal_moves, legal_moves_from, lemma_legal_among_sound, material, pseudo_legal_moves,
    pseudo_legal_moves_below, sound, FIFTY_MOVE_PLIES,
};

verus! {

/// How a position stands for the side to move.
#[derive(Clone, Copy, Debug, PartialEq, Eq, Structural)]
pub enum GameState {
    InProgress,
    Check,
    Checkmate,
    Stalemate,
    InsufficientMaterial,
    DrawBy50MoveRule,
}

/// A chess game: the board, the side to move, and what the special rules
/// need to remember.
#[derive(Clone, Copy)]
pub struct Game {
    /// The 64 squares, row by row from a8 to h1.
    pub board: [Piece; 64],
    /// The side to move: `WHITE` or `BLACK`.
    pub turn: usize,
    /// The square of the pawn that has just made a double push, or 64 and more
    /// for none.
    pub possible_ep_capture: usize,
    /// The square of each side's king, by color.
    pub king_square: [usize; 2],
    /// Plies since the last pawn move or capture.
    pub half_move_clock: usize,
}

impl View for Game {
    type V = Position;

    open spec fn view(&self) -> Position {
        Position {
            board: Seq::new(64, |sq: int| self.board[sq]@),
            turn: self.turn as int,
            ep: self.possible_ep_capture as int,
            king_square: Seq::new(2, |color: int| self.king_square[color] as int),
            clock: self.half_move_clock as int,
        }
    }
}

proof fn lemma_flip(turn: usize)
    by (bit_vector)
    requires
        turn <= 1,
    ensures
        turn ^ 1 == 1 - turn,
{
}

impl Game {
    /// The game's position is well formed.
    pub open spec fn wf(&self) -> bool {
        self@.wf()
    }

    /// Creates the game that a serialized position describes: five fields
    /// separated by single spaces, which give the board, the side to move,
    /// the castling rights, the en-passant target and the half-move clock.
    /// Whether the game is well formed depends on the text:
    /// `is_well_formed` tells.
    pub fn new(fen: &str) -> (game: Game)
        requires
            fen_parses(fen@),
        ensures
            game@ == fen_position(fen@),
    {
        convert_fen_to_game(fen)
    }

    /// Creates the game that a serialized position describes, if the text
    /// describes one.
    pub fn try_new(fen: &str) -> (game: Option<Game>)
        ensures
            match game {
                Some(game) => fen_parses(fen@) && game@ == fen_position(fen@),
                None => !fen_parses(fen@),
            },
    {
        parse_fen(fen)
    }

    /// Creates a game at the starting position.
    pub fn starting_position() -> (game: Game)
        ensures
            game@ == initial_position(),
            game.wf(),
            sound(game@),
    {
        let back: [usize; 8] = [ROOK, KNIGHT, BISHOP, QUEEN, KING, BISHOP, KNIGHT, ROOK];
        let mut board: [Piece; 64] = [Piece::empty(); 64];
        let mut column: usize = 0;
        while column < 8
            invariant
                0 <= column <= 8,
                forall|c: int| 0 <= c < 8 ==> #[trigger] back[c] == back_rank()[c],
                forall|sq: int|
                    0 <= sq < 64 ==> (#[trigger] board[sq])@ == if (sq < 16 || sq >= 48) && sq % 8
                        < column {
                        initial_piece(sq)
                    } else {
                        PieceView { kind: 0, color: 0, flags: 0 }
                    },
            decreases 8 - column,
        {
            board[column] = Piece::new(back[column], BLACK, EMPTY);
            board[8 + column] = Piece::new(PAWN, BLACK, EMPTY);
            board[48 + column] = Piece::new(PAWN, WHITE, EMPTY);
            board[56 + column] = Piece::new(back[column], WHITE, EMPTY);
            column += 1;
        }
        let game = Game {
            board,
            turn: WHITE,
            possible_ep_capture: NO_EP,
            king_square: [60, 4],
            half_move_clock: 0,
        };
        proof {
            assert(game@.board =~= initial_position().board);
            assert(game@.king_square =~= initial_position().king_square);
            lemma_initial_position_sound();
        }
        game
    }

    /// Replaces the whole state of the game by the position that `fen` describes.
    pub fn set_board_state(&mut self, fen: &str)
        requires
            fen_parses(fen@),
        ensures
            final(self)@ == fen_position(fen@),
    {
        let new_game = convert_fen_to_game(fen);
        self.board = new_game.board;
        self.turn = new_game.turn;
        self.possible_ep_capture = new_game.possible_ep_capture;
        self.king_square = new_game.king_square;
        self.half_move_clock = new_game.half_move_clock;
        proof {
            assert(self@.board =~= new_game@.board);
            assert(self@.king_square =~= new_game@.king_square);
        }
    }

    /// Whether a rook that has never moved stands on `corner`.
    fn rook_ready(&self, corner: usize) -> (ready: bool)
        requires
            corner < 64,
        ensures
            ready == self@.rook_ready(corner as int),
    {
        self.board[corner].get_type() == ROOK && !self.board[corner].has_moved()
    }

    /// Whether the game's position is well formed, so that its moves can be
    /// asked for and made.
    pub fn is_well_formed(&self) -> (ok: bool)
        ensures
            ok == self.wf(),
    {
        if self.turn > 1 || self.king_square[0] >= 64 || self.king_square[1] >= 64 {
            return false;
        }
        if self.possible_ep_capture < 64 {
            let ep: usize = self.possible_ep_capture;
            let pusher: usize = 1 - self.turn;
            let row: usize = if pusher == WHITE { 4 } else { 3 };
            if ep / 8 != row || self.board[ep].get_type() != PAWN || self.board[ep].get_color()
                != pusher {
                return false;
            }
            let passed: usize = if pusher == WHITE { ep + 8 } else { ep - 8 };
            if self.board[passed].get_type() != EMPTY {
                return false;
            }
        }
        let ghost p = self@;
        let white_rook_ready: bool = self.rook_ready(56) || self.rook_ready(63);
        let black_rook_ready: bool = self.rook_ready(0) || self.rook_ready(7);
        let mut square: usize = 0;
        while square < 64
            invariant
                p == self@,
                0 <= square <= 64,
                white_rook_ready == (p.rook_ready(56) || p.rook_ready(63)),
                black_rook_ready == (p.rook_ready(0) || p.rook_ready(7)),
                forall|sq: int| 0 <= sq < square ==> (#[trigger] p.board[sq]).wf(),
                forall|sq: int|
                    0 <= sq < square && (sq < 8 || 56 <= sq) ==> (#[trigger] p.board[sq]).kind != PAWN,
                forall|sq: int|
                    0 <= sq < square && #[trigger] p.may_castle_from(sq) ==> sq == king_home(
                        p.board[sq].color,
                    ),
            decreases 64 - square,
        {
            let piece: Piece = self.board[square];
            proof {
                piece.lemma_view_bounds();
                assert(p.board[square as int] == piece@);
            }
            let kind: usize = piece.get_type();
            if kind > KING {
                return false;
            }
            if kind == PAWN && (square < 8 || square >= 56) {
                return false;
            }
            if kind == KING && !piece.has_moved() {
                if piece.get_color() == WHITE {
                    if white_rook_ready && square != 60 {
                        assert(p.may_castle_from(square as int));
                        return false;
                    }
                } else {
                    if black_rook_ready && square != 4 {
                        assert(p.may_castle_from(square as int));
                        return false;
                    }
                }
            }
            square += 1;
        }
        true
    }

    /// All legal moves of the side to move, by source square.
    pub fn get_all_legal_moves(&self) -> (moves: Vec<Move>)
        requires
            self.wf(),
            self@.clock < usize::MAX,
        ensures
            move_views(moves@) == legal_moves(self@),
            forall|i: int| 0 <= i < moves.len() ==> is_legal(self@, #[trigger] moves[i]@),
            forall|i: int| 0 <= i < moves.len() ==> self@.admits(#[trigger] moves[i]@),
            forall|i: int| 0 <= i < moves.len() ==> is_pseudo_legal(self@, #[trigger] moves[i]@),
            sound(self@) ==> forall|i: int|
                0 <= i < moves.len() ==> sound(self@.apply(#[trigger] moves[i]@)),
    {
        let move_gen = MoveGenerator::new();
        let mut pseudo_legal_moves: Vec<Move> = Vec::new();
        let ghost p = self@;
        assert(move_views(pseudo_legal_moves@) =~= pseudo_legal_moves_below(p, 0));
        let mut square: usize = 0;
        while square < 64
            invariant
                move_gen.wf(),
                self.wf(),
                p == self@,
                0 <= square <= 64,
                move_views(pseudo_legal_moves@) == pseudo_legal_moves_below(p, square as nat),
            decreases 64 - square,
        {
            if self.board[square].get_type() != EMPTY && self.board[square].get_color() == self.turn {
                let mut from_square = move_gen.generate_pseudo_legal_moves(self, square);
                proof {
                    lemma_move_views_add(pseudo_legal_moves@, from_square@);
                }
                pseudo_legal_moves.append(&mut from_square);
            } else {
                assert(pseudo_legal_moves_below(p, (square + 1) as nat) =~= pseudo_legal_moves_below(
                    p,
                    square as nat,
                ));
            }
            square += 1;
        }
        proof {
            lemma_pseudo_legal_below_admitted(p, 64);
            lemma_legal_among_sound(p, pseudo_legal_moves_below(p, 64));
        }
        let moves = move_gen.filter_pseudo_legal_moves(self, pseudo_legal_moves);
        assert forall|i: int| 0 <= i < moves.len() implies is_legal(p, #[trigger] moves[i]@)
            && p.admits(moves[i]@) && is_pseudo_legal(p, moves[i]@) && (sound(p) ==> sound(
            p.apply(moves[i]@),
        )) by {
            assert(move_views(moves@)[i] == moves[i]@);
            if sound(p) {
                lemma_legal_move_keeps_sound(p, moves[i]@);
            }
        }
        moves
    }

    /// The legal moves from the given square.
    pub fn get_legal_moves(&self, square: usize) -> (moves: Vec<Move>)
        requires
            self.wf(),
            self@.clock < usize::MAX,
            square < 64,
        ensures
            move_views(moves@) == legal_moves_from(self@, square as int),
            forall|i: int| 0 <= i < moves.len() ==> is_legal(self@, #[trigger] moves[i]@),
            forall|i: int| 0 <= i < moves.len() ==> self@.admits(#[trigger] moves[i]@),
            forall|i: int| 0 <= i < moves.len() ==> is_pseudo_legal(self@, #[trigger] moves[i]@),
            sound(self@) ==> forall|i: int|
                0 <= i < moves.len() ==> sound(self@.apply(#[trigger] moves[i]@)),
    {
        let move_gen = MoveGenerator::new();
        let candidates = move_gen.generate_pseudo_legal_moves(self, square);
        proof {
            lemma_pseudo_legal_admitted(self@, square as int);
            lemma_pseudo_legal_listed(self@, square as int);
            lemma_legal_among_sound(self@, pseudo_legal_moves(self@, square as int));
        }
        let moves = move_gen.filter_pseudo_legal_moves(self, candidates);
        assert forall|i: int| 0 <= i < moves.len() implies is_legal(self@, #[trigger] moves[i]@)
            && self@.admits(moves[i]@) && is_pseudo_legal(self@, moves[i]@) && (sound(self@)
            ==> sound(self@.apply(moves[i]@))) by {
            assert(move_views(moves@)[i] == moves[i]@);
            if sound(self@) {
                lemma_legal_move_keeps_sound(self@, moves[i]@);
            }
        }
        moves
    }

    /// How many pieces `color` has, and how many of them are knights and
    /// bishops.
    fn count_material(&self, color: usize) -> (counts: (usize, usize, usize))
        ensures
            counts.0 == material(self@.board, color as int),
            counts.1 == count_of(self@.board, color as int, KNIGHT as int),
            counts.2 == count_of(self@.board, color as int, BISHOP as int),
    {
        let ghost board = self@.board;
        let mut total: usize = 0;
        let mut knights: usize = 0;
        let mut bishops: usize = 0;
        let mut square: usize = 0;
        proof {
            reveal(Seq::filter);
            assert(board.take(0) =~= Seq::<PieceView>::empty());
        }
        while square < 64
            invariant
                board == self@.board,
                0 <= square <= 64,
                total == material(board.take(square as int), color as int),
                knights == count_of(board.take(square as int), color as int, KNIGHT as int),
                bishops == count_of(board.take(square as int), color as int, BISHOP as int),
                total <= square,
                knights <= square,
                bishops <= square,
            decreases 64 - square,
        {
            let piece: Piece = self.board[square];
            proof {
                let before = board.take(square as int);
                assert(board.take(square + 1) =~= before.push(piece@));
                before.lemma_filter_push(piece@, is_piece_of(color as int));
                before.lemma_filter_push(piece@, is_kind_of(color as int, KNIGHT as int));
                before.lemma_filter_push(piece@, is_kind_of(color as int, BISHOP as int));
            }
            if piece.get_type() != EMPTY && piece.get_color() == color {
                total += 1;
                if piece.get_type() == KNIGHT {
                    knights += 1;
                }
                if piece.get_type() == BISHOP {
                    bishops += 1;
                }
            }
            square += 1;
        }
        assert(board.take(64) =~= board);
        (total, knights, bishops)
    }

    /// Classifies the position for the side to move. Repetition of
    /// positions is not looked at.
    pub fn get_game_state(&self) -> (state: GameState)
        requires
            self.wf(),
            self@.clock < usize::MAX,
        ensures
            state == game_state(self@),
    {
        let move_gen = MoveGenerator::new();
        let mut game_state = GameState::InProgress;
        if move_gen.is_attacked(self, self.king_square[self.turn], self.turn) {
            game_state = GameState::Check;
            let moves = self.get_all_legal_moves();
            if moves.len() == 0 {
                return GameState::Checkmate;
            }
        } else {
            let moves = self.get_all_legal_moves();
            if moves.len() == 0 {
                return GameState::Stalemate;
            }
        }
        let white = self.count_material(WHITE);
        let black = self.count_material(BLACK);
        if (white.0 == 1 || (white.0 == 2 && (white.2 == 1 || white.1 == 1)) || (white.0 == 3
            && white.1 == 2)) && (black.0 == 1 || (black.0 == 2 && (black.2 == 1 || black.1 == 1))
            || (black.0 == 3 && black.1 == 2)) {
            return GameState::InsufficientMaterial;
        }
        if self.half_move_clock >= FIFTY_MOVE_PLIES {
            return GameState::DrawBy50MoveRule;
        }
        game_state
    }

    /// Makes the first legal move from `from` to `to`, if there is one, and
    /// says whether it did. Where the move is a promotion, `promotion` must
    /// be the code of the promotion that is wanted (`KNIGHT_PROMOTION` to
    /// `QUEEN_PROMOTION`); else it is not looked at. Without such a move
    /// the game stays as it is.
    pub fn make_move_from_to(&mut self, from: usize, to: usize, promotion: usize) -> (made: bool)
        requires
            old(self).wf(),
            old(self)@.clock < usize::MAX,
        ensures
            final(self).wf(),
            sound(old(self)@) ==> sound(final(self)@),
            match first_answer(legal_moves(old(self)@), from as int, to as int, promotion as int) {
                Some(m) => made && final(self)@ == old(self)@.apply(m),
                None => !made && *final(self) == *old(self),
            },
    {
        let moves = self.get_all_legal_moves();
        let ghost p = self@;
        let ghost all = move_views(moves@);
        let mut i: usize = 0;
        assert(all.skip(0) =~= all);
        while i < moves.len()
            invariant
                self.wf(),
                *self == *old(self),
                p == self@,
                p.clock < usize::MAX,
                all == move_views(moves@),
                all == legal_moves(p),
                forall|j: int| 0 <= j < moves.len() ==> p.admits(#[trigger] moves[j]@),
                sound(p) ==> forall|j: int|
                    0 <= j < moves.len() ==> sound(p.apply(#[trigger] moves[j]@)),
                0 <= i <= moves.len(),
                first_answer(all, from as int, to as int, promotion as int) == first_answer(
                    all.skip(i as int),
                    from as int,
                    to as int,
                    promotion as int,
                ),
            decreases moves.len() - i,
        {
            let mv: Move = moves[i];
            proof {
                assert(all.skip(i as int)[0] == mv@);
                assert(all.skip(i as int).drop_first() =~= all.skip(i + 1));
            }
            if mv.get_from() == from && mv.get_to() == to {
                if !(mv.is_promotion() && mv.flags_without_capture() != promotion) {
                    self.make_move(mv);
                    return true;
                }
            }
            i += 1;
        }
        false
    }

    /// The game after the given move, made on a copy: this game stays as it
    /// is. A copy taken before a move is the only way back to the position
    /// before it.
    pub fn after_move(&self, mv: Move) -> (next: Game)
        requires
            self.wf(),
            self@.clock < usize::MAX,
            mv@.is_queen_castle() ==> mv@.from >= 4,
            mv@.is_king_castle() ==> mv@.from <= 60,
        ensures
            next@ == self@.apply(mv@),
            self@.admits(mv@) ==> next.wf(),
    {
        let mut game_copy: Game = self.clone();
        game_copy.make_move(mv);
        game_copy
    }

    /// Whether the position can arise in a game: it is well formed, the
    /// kings stand where the game has them, and the side that has just
    /// moved has not left its king attacked.
    pub fn is_sound(&self) -> (ok: bool)
        ensures
            ok == sound(self@),
    {
        if !self.is_well_formed() {
            return false;
        }
        let white_king: Piece = self.board[self.king_square[WHITE]];
        let black_king: Piece = self.board[self.king_square[BLACK]];
        if white_king.get_type() != KING || white_king.get_color() != WHITE || black_king.get_type()
            != KING || black_king.get_color() != BLACK {
            return false;
        }
        let waiting: usize = 1 - self.turn;
        !MoveGenerator::new().is_attacked(self, self.king_square[waiting], waiting)
    }

    /// The column of a square, counted from the left.
    pub fn get_column(&self, square: usize) -> (column: usize)
        ensures
            column == col_of(square as int),
    {
        square % 8
    }

    /// The row of a square, counted from the top.
    pub fn get_row(&self, square: usize) -> (row: usize)
        ensures
            row == row_of(square as int),
    {
        square / 8
    }

    /// Makes the given move on the board and passes the turn. The move is
    /// not checked against the rules: it is meant to come from
    /// `get_all_legal_moves` or `get_legal_moves` on this position.
    pub fn make_move(&mut self, mv: Move)
        requires
            old(self).wf(),
            old(self)@.clock < usize::MAX,
            mv@.is_queen_castle() ==> mv@.from >= 4,
            mv@.is_king_castle() ==> mv@.from <= 60,
        ensures
            final(self)@ == old(self)@.apply(mv@),
            old(self)@.admits(mv@) ==> final(self).wf(),
    {
        let from: usize = mv.get_from();
        let to: usize = mv.get_to();
        let ghost p = self@;
        let ghost m = mv@;
        proof {
            mv.lemma_view_wf();
        }
        self.half_move_clock += 1;
        if self.board[from].get_type() == KING {
            self.king_square[self.turn] = to;
        }
        if self.board[from].get_type() == PAWN {
            self.half_move_clock = 0;
        }
        if mv.is_capture() {
            self.half_move_clock = 0;
            let mut captured_square: usize = to;
            if mv.is_ep_capture() {
                captured_square = from - from % 8 + to % 8;
            }
            self.board[captured_square].set_type(EMPTY);
        }
        let ghost b1 = self@.board;
        assert(b1 =~= if m.is_capture() {
            p.board.update(captured_square(m), p.board[captured_square(m)].with_kind(EMPTY as int))
        } else {
            p.board
        });
        if self.possible_ep_capture < 64 {
            self.possible_ep_capture = NO_EP;
        }
        if mv.is_double_pawn_push() {
            self.possible_ep_capture = to;
        }
        self.board[to] = self.board[from];
        self.board[from].set_type(EMPTY);
        self.board[to].set_flags(HAS_MOVED);
        let ghost b2 = b1.update(m.to, b1[m.from]);
        let ghost b3 = b2.update(m.from, b2[m.from].with_kind(EMPTY as int));
        let ghost b4 = b3.update(m.to, b3[m.to].with_flags(HAS_MOVED as int));
        assert(self@.board =~= b4);

        if mv.is_castle() {
            let rook_from: usize = if mv.is_queen_castle() { from - 4 } else { from + 3 };
            let rook_to: usize = if mv.is_queen_castle() { from - 1 } else { from + 1 };
            self.board[rook_to] = self.board[rook_from];
            self.board[rook_to].set_flags(HAS_MOVED);
            self.board[rook_from].set_type(EMPTY);
        }
        let ghost b5 = self@.board;
        assert(b5 =~= if m.is_castle() {
            let b = b4.update(castle_rook_to(m), b4[castle_rook_from(m)].with_flags(HAS_MOVED as int));
            b.update(castle_rook_from(m), b[castle_rook_from(m)].with_kind(EMPTY as int))
        } else {
            b4
        });
        if mv.is_promotion() {
            let promotion_type: usize = mv.flags_without_capture();
            if promotion_type == BISHOP_PROMOTION {
                self.board[to].set_type(BISHOP);
            }
            if promotion_type == KNIGHT_PROMOTION {
                self.board[to].set_type(KNIGHT);
            }
            if promotion_type == ROOK_PROMOTION {
                self.board[to].set_type(ROOK);
            }
            if promotion_type == QUEEN_PROMOTION {
                self.board[to].set_type(QUEEN);
            }
        }
        assert(self@.board =~= if m.is_promotion() {
            b5.update(m.to, b5[m.to].with_kind(promoted_kind(m)))
        } else {
            b5
        });
        proof {
            lemma_flip(self.turn);
        }
        self.turn ^= 1;
        proof {
            assert(self@.board =~= p.apply(m).board);
            assert(self@.king_square =~= p.apply(m).king_square);
            if p.admits(m) {
                lemma_apply_keeps_wf(p, m);
            }
        }
    }
}

} // verus!
