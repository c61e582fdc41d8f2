//! Pieces: the occupant of one square, packed into one integer.

use vstd::prelude::*;

verus! {

pub const EMPTY: usize = 0;
pub const PAWN: usize = 1;
pub const KNIGHT: usize = 2;
pub const BISHOP: usize = 3;
pub const ROOK: usize = 4;
pub const QUEEN: usize = 5;
pub const KING: usize = 6;

pub const WHITE: usize = 0;
pub const BLACK: usize = 1;

/// Flag bit of a piece that has left the square it started on.
pub const HAS_MOVED: usize = 1;

/// What a square holds, as plain numbers.
pub struct PieceView {
    /// `EMPTY`, or one of `PAWN` to `KING`.
    pub kind: int,
    /// `WHITE` or `BLACK`.
    pub color: int,
    /// Bit 0 is `HAS_MOVED`.
    pub flags: int,
}

impl PieceView {
    /// The kind names a piece or the empty square, and color and flags fit their bits.
    pub open spec fn wf(self) -> bool {
        &&& 0 <= self.kind <= 6
        &&& 0 <= self.color <= 1
        &&& 0 <= self.flags <= 3
    }

    pub open spec fn is_empty(self) -> bool {
        self.kind == EMPTY
    }

    pub open spec fn has_moved(self) -> bool {
        self.flags % 2 == 1
    }

    /// The same occupant with another kind. An emptied square keeps the color
    /// and flags of the piece that stood on it.
    pub open spec fn with_kind(self, kind: int) -> PieceView {
        PieceView { kind, ..self }
    }

    pub open spec fn with_flags(self, flags: int) -> PieceView {
        PieceView { flags, ..self }
    }
}

/// The occupant of a square: bits 0-2 hold the kind, bit 3 the color and
/// bits 4-5 the flags.
#[derive(Clone, Copy, Debug)]
pub struct Piece {
    piece: usize,
}

impl View for Piece {
    type V = PieceView;

    closed spec fn view(&self) -> PieceView {
        PieceView {
            kind: (self.piece % 8) as int,
            color: ((self.piece / 8) % 2) as int,
            flags: ((self.piece / 16) % 4) as int,
        }
    }
}

proof fn lemma_pack_piece(t: usize, c: usize, f: usize)
    by (bit_vector)
    ensures
        ({
            let p = ((f & 0x03) << 4) | ((c & 0x01) << 3) | (t & 0x07);
            &&& p % 8 == t % 8
            &&& (p / 8) % 2 == c % 2
            &&& (p / 16) % 4 == f % 4
        }),
{
}

proof fn lemma_unpack_piece(p: usize)
    by (bit_vector)
    ensures
        p & 0x07 == p % 8,
        (p >> 3) & 0x01 == (p / 8) % 2,
        (p >> 4) & 0x03 == (p / 16) % 4,
        ((p >> 4) & 0x03) & 1 == (p / 16) % 4 % 2,
{
}

proof fn lemma_replace_kind(p: usize, t: usize)
    by (bit_vector)
    ensures
        ({
            let q = (p & !0x07usize) | (t & 0x07);
            &&& q % 8 == t % 8
            &&& (q / 8) % 2 == (p / 8) % 2
            &&& (q / 16) % 4 == (p / 16) % 4
        }),
{
}

proof fn lemma_replace_flags(p: usize, f: usize)
    by (bit_vector)
    ensures
        ({
            let q = (p & !0x30usize) | ((f & 0x03) << 4);
            &&& q % 8 == p % 8
            &&& (q / 8) % 2 == (p / 8) % 2
            &&& (q / 16) % 4 == f % 4
        }),
{
}

impl Piece {
    /// Packs a kind, a color and flags; each argument is cut to the width of its field.
    pub fn new(piece_type: usize, piece_color: usize, piece_flags: usize) -> (p: Piece)
        ensures
            p@ == (PieceView {
                kind: piece_type as int % 8,
                color: piece_color as int % 2,
                flags: piece_flags as int % 4,
            }),
    {
        proof {
            lemma_pack_piece(piece_type, piece_color, piece_flags);
        }
        Piece {
            piece: ((piece_flags & 0x03) << 4) | ((piece_color & 0x01) << 3) | (piece_type & 0x07),
        }
    }

    /// The empty square: kind, color and flags are all zero.
    pub fn empty() -> (p: Piece)
        ensures
            p@ == (PieceView { kind: 0, color: 0, flags: 0 }),
    {
        Piece { piece: 0 }
    }

    /// Returns a number between 0 and 6 inclusive: `EMPTY`, `PAWN`, `KNIGHT` and so on.
    pub fn get_type(&self) -> (t: usize)
        ensures
            t == self@.kind,
            t <= 7,
    {
        proof {
            lemma_unpack_piece(self.piece);
        }
        self.piece & 0x07
    }

    /// Returns either 0 or 1: `WHITE` or `BLACK`.
    pub fn get_color(&self) -> (c: usize)
        ensures
            c == self@.color,
            c <= 1,
    {
        proof {
            lemma_unpack_piece(self.piece);
        }
        (self.piece >> 3) & 0x01
    }

    pub fn get_flags(&self) -> (f: usize)
        ensures
            f == self@.flags,
            f <= 3,
    {
        proof {
            lemma_unpack_piece(self.piece);
        }
        (self.piece >> 4) & 0x03
    }

    /// Replaces the kind and keeps color and flags.
    pub fn set_type(&mut self, piece_type: usize)
        ensures
            final(self)@ == old(self)@.with_kind(piece_type as int % 8),
    {
        proof {
            lemma_replace_kind(self.piece, piece_type);
        }
        self.piece = (self.piece & !0x07) | (piece_type & 0x07);
    }

    /// Replaces the flags and keeps kind and color.
    pub fn set_flags(&mut self, piece_flags: usize)
        ensures
            final(self)@ == old(self)@.with_flags(piece_flags as int % 4),
    {
        proof {
            lemma_replace_flags(self.piece, piece_flags);
        }
        self.piece = (self.piece & !0x30) | ((piece_flags & 0x03) << 4);
    }

    pub fn has_moved(&self) -> (b: bool)
        ensures
            b == self@.has_moved(),
    {
        proof {
            lemma_unpack_piece(self.piece);
        }
        self.get_flags() & HAS_MOVED != 0
    }

    /// Whatever integer a piece holds, its fields are within their widths.
    pub proof fn lemma_view_bounds(self)
        ensures
            0 <= self@.kind <= 7,
            0 <= self@.color <= 1,
            0 <= self@.flags <= 3,
    {
    }
}

} // verus!
