use vstd::prelude::*;
use vstd::std_specs::bits::u64_trailing_zeros;
use crate::bits::{bit64, popcnt, popcnt_from, lemma_popcnt_from_bound, lemma_clear_lsb_decreases};

verus! {

// A BitBoard is a 64-bit integer that represents a set of squares of the
// board, with bit 0 being a1 and bit 63 being h8.
#[derive(Debug, Copy, Clone, PartialEq, Eq, Structural)]
pub struct BitBoard(pub u64);

/// Byte reversal of `b`: mirrors the board along the horizontal axis.
pub open spec fn spec_swap_bytes(b: u64) -> u64 {
    ((b & 0x0000_0000_0000_00FF) << 56) | ((b & 0x0000_0000_0000_FF00) << 40) | ((b
        & 0x0000_0000_00FF_0000) << 24) | ((b & 0x0000_0000_FF00_0000) << 8) | ((b
        & 0x0000_00FF_0000_0000) >> 8) | ((b & 0x0000_FF00_0000_0000) >> 24) | ((b
        & 0x00FF_0000_0000_0000) >> 40) | ((b & 0xFF00_0000_0000_0000) >> 56)
}

/// The squares of `bb` in ascending order, by repeatedly taking the least set bit.
pub open spec fn squares_of(bb: u64) -> Seq<u8>
    decreases bb,
    via squares_of_decreases
{
    if bb == 0 {
        Seq::empty()
    } else {
        seq![u64_trailing_zeros(bb) as u8] + squares_of(bb & ((bb - 1) as u64))
    }
}

#[via_fn]
proof fn squares_of_decreases(bb: u64) {
    lemma_clear_lsb_decreases();
}

/// Byte reversal mirrors the board: square `i` of the reversed set is
/// square `i ^ 56` of the original, the same file on the mirrored rank.
pub proof fn lemma_swap_bit()
    by (bit_vector)
    ensures
        forall|a: u64, i: u64|
            i < 64 ==> (#[trigger] (spec_swap_bytes(a) & (1u64 << i)) != 0 <==> (a & (1u64 << (i
                ^ 56))) != 0),
        forall|i: u64| i < 64 ==> #[trigger] (i ^ 56) < 64,
{
}

impl BitBoard {
    // Returns an empty BitBoard
    pub fn empty() -> (r: Self)
        ensures
            r.0 == 0,
    {
        Self(0)
    }

    // Returns a BitBoard from the given u64
    pub fn from_u64(u: u64) -> (r: Self)
        ensures
            r.0 == u,
    {
        Self(u)
    }

    pub fn from_square(square: u8) -> (r: Self)
        requires
            square < 64,
        ensures
            r.0 == 1u64 << square,
    {
        Self(1u64 << square)
    }

    pub fn from_index(index: usize) -> (r: Self)
        requires
            index < 64,
        ensures
            r.0 == 1u64 << (index as u64),
    {
        Self(1u64 << (index as u64))
    }

    pub fn remove_square(&mut self, square: u8)
        requires
            square < 64,
        ensures
            final(self).0 == old(self).0 & !(1u64 << square),
    {
        self.0 = self.0 & !(1u64 << square);
    }

    pub fn count_ones(&self) -> (r: u32)
        ensures
            r == popcnt(self.0),
    {
        let mut c: u32 = 0;
        let mut i: u64 = 0;
        proof {
            lemma_popcnt_from_bound(self.0, 0);
        }
        while i < 64
            invariant
                i <= 64,
                c + popcnt_from(self.0, i as int) == popcnt(self.0),
                popcnt(self.0) <= 64,
            decreases 64 - i,
        {
            proof {
                lemma_popcnt_from_bound(self.0, i as int);
            }
            if (self.0 & (1u64 << i)) != 0 {
                c = c + 1;
            }
            i = i + 1;
        }
        c
    }

    pub fn is_empty(&self) -> (r: bool)
        ensures
            r == (self.0 == 0),
    {
        self.0 == 0
    }

    pub fn contains(self, square: u8) -> (r: bool)
        requires
            square < 64,
        ensures
            r == bit64(self.0, square as u64),
    {
        !(self.0 & (1u64 << square) == 0)
    }

    pub fn shift_north(&self) -> (r: Self)
        ensures
            r.0 == self.0 << 8,
    {
        Self(self.0 << 8u64)
    }

    pub fn shift_south(&self) -> (r: Self)
        ensures
            r.0 == self.0 >> 8,
    {
        Self(self.0 >> 8u64)
    }

    pub fn shift_east(&self) -> (r: Self)
        ensures
            r.0 == (self.0 << 1) & 0xFEFE_FEFE_FEFE_FEFE,
    {
        Self((self.0 << 1u64) & 0xFEFE_FEFE_FEFE_FEFE)
    }

    pub fn shift_west(&self) -> (r: Self)
        ensures
            r.0 == (self.0 >> 1) & 0x7F7F_7F7F_7F7F_7F,
    {
        Self((self.0 >> 1u64) & 0x7F7F_7F7F_7F7F_7F)
    }

    // Shifts the bits diagonally to the north-east
    pub fn diagonal_north_east(&self) -> (r: Self)
        ensures
            r.0 == (self.0 & 0xFEFE_FEFE_FEFE_FEFE) << 9,
    {
        Self((self.0 & 0xFEFE_FEFE_FEFE_FEFE) << 9u64)
    }

    // Shifts the bits diagonally to the north-west
    pub fn diagonal_north_west(&self) -> (r: Self)
        ensures
            r.0 == (self.0 & 0x7F7F_7F7F_7F7F_7F7F) << 7,
    {
        Self((self.0 & 0x7F7F_7F7F_7F7F_7F7F) << 7u64)
    }

    // Shifts the bits diagonally to the south-east
    pub fn diagonal_south_east(&self) -> (r: Self)
        ensures
            r.0 == (self.0 & 0xFEFE_FEFE_FEFE_FEFE) >> 7,
    {
        Self((self.0 & 0xFEFE_FEFE_FEFE_FEFE) >> 7u64)
    }

    // Shifts the bits diagonally to the south-west
    pub fn diagonal_south_west(&self) -> (r: Self)
        ensures
            r.0 == (self.0 & 0x7F7F_7F7F_7F7F_7F7F) >> 9,
    {
        Self((self.0 & 0x7F7F_7F7F_7F7F_7F7F) >> 9u64)
    }

    pub fn squares_from_bb(&self) -> (squares: Vec<u8>)
        ensures
            squares@ == squares_of(self.0),
    {
        let mut squares: Vec<u8> = Vec::new();
        let mut bb = self.0;
        while bb != 0
            invariant
                squares@ + squares_of(bb) == squares_of(self.0),
            decreases bb,
        {
            let square = bb.trailing_zeros() as u8;
            squares.push(square);
            proof {
                lemma_clear_lsb_decreases();
                assert(squares_of(bb) == seq![u64_trailing_zeros(bb) as u8] + squares_of(bb & ((bb - 1) as u64)));
            }
            bb = bb & (bb - 1);
        }
        proof {
            assert(squares@ + squares_of(0) =~= squares@);
        }
        squares
    }

    // Colorflips itself by mirroring all pieces along the horizontal axis
    // between 4th and 5th rank, by reversing the order of the bytes.
    pub fn colorflip(self) -> (r: Self)
        ensures
            r.0 == spec_swap_bytes(self.0),
    {
        let b = self.0;
        let flipped = ((b & 0x0000_0000_0000_00FF) << 56u64) | ((b & 0x0000_0000_0000_FF00)
            << 40u64) | ((b & 0x0000_0000_00FF_0000) << 24u64) | ((b & 0x0000_0000_FF00_0000)
            << 8u64) | ((b & 0x0000_00FF_0000_0000) >> 8u64) | ((b & 0x0000_FF00_0000_0000)
            >> 24u64) | ((b & 0x00FF_0000_0000_0000) >> 40u64) | ((b & 0xFF00_0000_0000_0000)
            >> 56u64);
        Self(flipped)
    }

    pub fn trailing_zeros(&self) -> (r: u8)
        ensures
            r == u64_trailing_zeros(self.0),
            r <= 64,
            self.0 != 0 ==> r < 64,
    {
        proof {
            vstd::std_specs::bits::axiom_u64_trailing_zeros(self.0);
        }
        self.0.trailing_zeros() as u8
    }

    pub fn clear_lsb(&mut self)
        requires
            old(self).0 != 0,
        ensures
            final(self).0 == old(self).0 & ((old(self).0 - 1) as u64),
            final(self).0 < old(self).0,
    {
        proof {
            lemma_clear_lsb_decreases();
        }
        self.0 = self.0 & (self.0 - 1);
    }
}

} // verus!
