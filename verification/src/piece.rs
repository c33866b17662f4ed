use vstd::prelude::*;
use crate::state::Color;

verus! {

/* A packed piece is stored as an 8-bit number: the highest bit is the color
/ (0 for white, 1 for black), the middle six bits one-hot the piece type in
/ the order rook, knight, bishop, queen, king, pawn, and the lowest bit says
/ whether the piece has moved. */
#[derive(Debug, Default)]
pub struct Piece(pub u8);

/// Relies on bit::BitIndex::bit for u8: true exactly when bit `pos` of the
/// byte is set; the trait panics for positions past the byte.
#[verifier::external_body]
fn u8_bit(x: &u8, pos: usize) -> (r: bool)
    requires
        pos < 8,
    ensures
        r == ((*x & (1u8 << pos)) != 0),
{
    bit::BitIndex::bit(x, pos)
}

impl Piece {
    /// The color packed into the highest bit.
    pub open spec fn spec_color(self) -> Color {
        if self.0 & 0x80 != 0 {
            Color::Black
        } else {
            Color::White
        }
    }

    pub fn get_color(&self) -> (r: Color)
        ensures
            r == self.spec_color(),
    {
        proof {
            let b = self.0;
            assert((b & (1u8 << 7u8)) == (b & 0x80)) by (bit_vector);
        }
        if u8_bit(&self.0, 7) {
            Color::Black
        } else {
            Color::White
        }
    }

    pub fn has_moved(&self) -> (r: bool)
        ensures
            r == ((self.0 & 0x01) != 0),
    {
        proof {
            let b = self.0;
            assert((b & (1u8 << 0u8)) == (b & 0x01)) by (bit_vector);
        }
        u8_bit(&self.0, 0)
    }

    /// The one-hot piece code read from the type bits, highest first.
    pub open spec fn spec_piece_type(self) -> u8 {
        if self.0 & 0x40 != 0 {
            5
        } else if self.0 & 0x20 != 0 {
            4
        } else if self.0 & 0x10 != 0 {
            3
        } else if self.0 & 0x08 != 0 {
            2
        } else if self.0 & 0x04 != 0 {
            1
        } else {
            0
        }
    }

    /* Returns the piece type. A byte without any type bit does not encode
    / a piece; asking it for its type is a caller error. */
    pub fn get_piece_type(&self) -> (r: u8)
        requires
            !self.spec_is_invalid(),
        ensures
            r == self.spec_piece_type(),
    {
        proof {
            let b = self.0;
            assert((b & (1u8 << 6u8)) == (b & 0x40) && (b & (1u8 << 5u8)) == (b & 0x20) && (b & (1u8
                << 4u8)) == (b & 0x10) && (b & (1u8 << 3u8)) == (b & 0x08) && (b & (1u8 << 2u8)) == (
            b & 0x04) && (b & (1u8 << 1u8)) == (b & 0x02)) by (bit_vector);
            assert(b & 0b01111110 != 0 ==> (b & 0x40 != 0 || b & 0x20 != 0 || b & 0x10 != 0 || b
                & 0x08 != 0 || b & 0x04 != 0 || b & 0x02 != 0)) by (bit_vector);
        }
        if u8_bit(&self.0, 6) {
            5
        } else if u8_bit(&self.0, 5) {
            4
        } else if u8_bit(&self.0, 4) {
            3
        } else if u8_bit(&self.0, 3) {
            2
        } else if u8_bit(&self.0, 2) {
            1
        } else if u8_bit(&self.0, 1) {
            0
        } else {
            proof {
                assert(false);
            }
            0
        }
    }

    /// A byte with no type bit set encodes no piece.
    pub open spec fn spec_is_invalid(self) -> bool {
        self.0 & 0b01111110 == 0
    }

    // Debug method to check if the piece is invalid
    pub fn is_invalid(&self) -> (r: bool)
        ensures
            r == self.spec_is_invalid(),
    {
        self.0 & 0b01111110 == 0
    }
}

} // verus!
