//! Moves: a source square, a target square and a four-bit flag, packed into
//! one integer.

use vstd::prelude::*;

verus! {

pub const QUIET_MOVE: usize = 0b0000;
pub const DOUBLE_PAWN_PUSH: usize = 0b0001;
pub const KING_CASTLE: usize = 0b0010;
pub const QUEEN_CASTLE: usize = 0b0011;
pub const CAPTURE: usize = 0b0100;
pub const EP_CAPTURE: usize = 0b0101;
pub const KNIGHT_PROMOTION: usize = 0b1000;
pub const BISHOP_PROMOTION: usize = 0b1001;
pub const ROOK_PROMOTION: usize = 0b1010;
pub const QUEEN_PROMOTION: usize = 0b1011;
pub const KNIGHT_PROMOTION_CAP: usize = 0b1100;
pub const BISHOP_PROMOTION_CAP: usize = 0b1101;
pub const ROOK_PROMOTION_CAP: usize = 0b1110;
pub const QUEEN_PROMOTION_CAP: usize = 0b1111;

/// A move as plain numbers.
pub struct MoveView {
    pub from: int,
    pub to: int,
    pub flags: int,
}

impl MoveView {
    /// Both squares are on the board and the flag fits four bits.
    pub open spec fn wf(self) -> bool {
        &&& 0 <= self.from < 64
        &&& 0 <= self.to < 64
        &&& 0 <= self.flags < 16
    }

    /// Bit 2 of the flag is set.
    pub open spec fn is_capture(self) -> bool {
        (self.flags / 4) % 2 == 1
    }

    /// Bit 3 of the flag is set.
    pub open spec fn is_promotion(self) -> bool {
        (self.flags / 8) % 2 == 1
    }

    pub open spec fn is_ep_capture(self) -> bool {
        self.flags == EP_CAPTURE
    }

    pub open spec fn is_castle(self) -> bool {
        self.flags == KING_CASTLE || self.flags == QUEEN_CASTLE
    }

    pub open spec fn is_double_pawn_push(self) -> bool {
        self.flags == DOUBLE_PAWN_PUSH
    }

    pub open spec fn is_queen_castle(self) -> bool {
        self.flags == QUEEN_CASTLE
    }

    pub open spec fn is_king_castle(self) -> bool {
        self.flags == KING_CASTLE
    }

    /// The flag with the capture bit cleared: for a promotion, the code of
    /// the piece that is chosen.
    pub open spec fn flags_without_capture(self) -> int {
        if self.is_capture() {
            self.flags - 4
        } else {
            self.flags
        }
    }
}

/// A move: bits 0-5 hold the target square, bits 6-11 the source square and
/// bits 12-15 the flag.
#[derive(Clone, Copy, Debug)]
pub struct Move {
    chess_move: usize,
}

impl View for Move {
    type V = MoveView;

    closed spec fn view(&self) -> MoveView {
        MoveView {
            from: ((self.chess_move / 64) % 64) as int,
            to: (self.chess_move % 64) as int,
            flags: ((self.chess_move / 4096) % 16) as int,
        }
    }
}

proof fn lemma_pack_move(from: usize, to: usize, flags: usize)
    by (bit_vector)
    ensures
        ({
            let m = ((flags & 0xf) << 12) | ((from & 0x3f) << 6) | (to & 0x3f);
            &&& m % 64 == to % 64
            &&& (m / 64) % 64 == from % 64
            &&& (m / 4096) % 16 == flags % 16
        }),
{
}

proof fn lemma_unpack_move(m: usize)
    by (bit_vector)
    ensures
        m & 0x3f == m % 64,
        (m >> 6) & 0x3f == (m / 64) % 64,
        (m >> 12) & 0x0f == (m / 4096) % 16,
{
}

proof fn lemma_flag_bits(f: usize)
    by (bit_vector)
    requires
        f < 16,
    ensures
        (f & 0b0100 != 0) == ((f / 4) % 2 == 1),
        (f & (1usize << 3) != 0) == ((f / 8) % 2 == 1),
        ((f | 1) == 0b0011) == (f == 0b0010 || f == 0b0011),
        f & !0b0100usize == (if (f / 4) % 2 == 1 { (f - 4) as usize } else { f }),
{
}

impl Move {
    /// Packs two squares and a flag; each argument is cut to the width of its field.
    pub fn new(from: usize, to: usize, flags: usize) -> (m: Move)
        ensures
            m@ == (MoveView { from: from as int % 64, to: to as int % 64, flags: flags as int % 16 }),
    {
        proof {
            lemma_pack_move(from, to, flags);
        }
        Move { chess_move: ((flags & 0xf) << 12) | ((from & 0x3f) << 6) | (to & 0x3f) }
    }

    pub fn get_to(&self) -> (sq: usize)
        ensures
            sq == self@.to,
            sq < 64,
    {
        proof {
            lemma_unpack_move(self.chess_move);
        }
        self.chess_move & 0x3f
    }

    pub fn get_from(&self) -> (sq: usize)
        ensures
            sq == self@.from,
            sq < 64,
    {
        proof {
            lemma_unpack_move(self.chess_move);
        }
        (self.chess_move >> 6) & 0x3f
    }

    pub fn get_flags(&self) -> (f: usize)
        ensures
            f == self@.flags,
            f < 16,
    {
        proof {
            lemma_unpack_move(self.chess_move);
        }
        (self.chess_move >> 12) & 0x0f
    }

    pub fn is_capture(&self) -> (b: bool)
        ensures
            b == self@.is_capture(),
    {
        let f: usize = self.get_flags();
        proof {
            lemma_flag_bits(f);
        }
        f & CAPTURE != 0
    }

    pub fn is_promotion(&self) -> (b: bool)
        ensures
            b == self@.is_promotion(),
    {
        let f: usize = self.get_flags();
        proof {
            lemma_flag_bits(f);
        }
        f & (1 << 3) != 0
    }

    pub fn is_ep_capture(&self) -> (b: bool)
        ensures
            b == self@.is_ep_capture(),
    {
        self.get_flags() == EP_CAPTURE
    }

    pub fn is_castle(&self) -> (b: bool)
        ensures
            b == self@.is_castle(),
    {
        let f: usize = self.get_flags();
        proof {
            lemma_flag_bits(f);
        }
        (f | 1) == QUEEN_CASTLE
    }

    pub fn is_double_pawn_push(&self) -> (b: bool)
        ensures
            b == self@.is_double_pawn_push(),
    {
        self.get_flags() == DOUBLE_PAWN_PUSH
    }

    pub fn is_queen_castle(&self) -> (b: bool)
        ensures
            b == self@.is_queen_castle(),
    {
        self.get_flags() == QUEEN_CASTLE
    }

    pub fn is_king_castle(&self) -> (b: bool)
        ensures
            b == self@.is_king_castle(),
    {
        self.get_flags() == KING_CASTLE
    }

    /// The flag with the capture bit cleared.
    pub fn flags_without_capture(&self) -> (f: usize)
        ensures
            f == self@.flags_without_capture(),
    {
        let f: usize = self.get_flags();
        proof {
            lemma_flag_bits(f);
        }
        f & !CAPTURE
    }

    /// Whatever integer a move holds, its fields are within their widths.
    pub proof fn lemma_view_wf(self)
        ensures
            self@.wf(),
    {
    }
}

/// A list of moves as plain values.
pub open spec fn move_views(moves: Seq<Move>) -> Seq<MoveView> {
    moves.map_values(|m: Move| m@)
}

pub proof fn lemma_move_views_push(moves: Seq<Move>, m: Move)
    ensures
        move_views(moves.push(m)) == move_views(moves).push(m@),
{
    assert(move_views(moves.push(m)) =~= move_views(moves).push(m@));
}

pub proof fn lemma_move_views_add(a: Seq<Move>, b: Seq<Move>)
    ensures
        move_views(a + b) == move_views(a) + move_views(b),
{
    assert(move_views(a + b) =~= move_views(a) + move_views(b));
}

} // verus!
