use vstd::prelude::*;

verus! {

/* Represents a single square on the board.
/ Representation: 0-63, with 0 being a1 and 63 being h8. */
#[derive(Debug, Clone, Copy, Hash, Eq, PartialEq, Structural)]
pub struct Square(pub usize);

impl Square {
    pub fn new(index: usize) -> (r: Self)
        ensures
            r.0 == index,
    {
        Self(index)
    }

    /// Where the offset lands, under the board-edge rules: a step off the
    /// first or last rank, off a side file, or a pure file step that leaves
    /// the rank, goes nowhere.
    pub open spec fn spec_offset(self, file_offset: i8, rank_offset: i8) -> Option<Square> {
        let new_index = self.0 + file_offset + 8 * rank_offset;
        if self.0 < 8 && rank_offset == -1 {
            None
        } else if self.0 >= 56 && rank_offset == 1 {
            None
        } else if self.0 % 8 == 0 && file_offset == -1 {
            None
        } else if self.0 % 8 == 7 && file_offset == 1 {
            None
        } else if file_offset != 0 && rank_offset == 0 && new_index / 8 != self.0 as int / 8 {
            None
        } else if new_index < 0 || new_index > 63 {
            None
        } else {
            Some(Square(new_index as usize))
        }
    }

    /* Attempt to offset the square by a given delta.
    / If the new square is out of bounds OR on the edge of the board,
    / return None. */
    pub fn offset(&self, file_offset: i8, rank_offset: i8) -> (r: Option<Square>)
        requires
            self.0 < 64,
            -8 <= file_offset <= 8,
            -8 <= rank_offset <= 8,
        ensures
            r == self.spec_offset(file_offset, rank_offset),
    {
        let new_index: i32 = self.0 as i32 + file_offset as i32 + 8 * rank_offset as i32;
        // Check if the new index overflows between ranks or files
        if self.0 < 8 && rank_offset == -1 {
            return None;
        }
        if self.0 >= 56 && rank_offset == 1 {
            return None;
        }
        if self.0 % 8 == 0 && file_offset == -1 {
            return None;
        }
        if self.0 % 8 == 7 && file_offset == 1 {
            return None;
        }
        if file_offset != 0 && rank_offset == 0 && new_index / 8 != self.0 as i32 / 8 {
            return None;
        }
        if new_index < 0 || new_index > 63 {
            None
        } else {
            Some(Square(new_index as usize))
        }
    }
}

} // verus!
