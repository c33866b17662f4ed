use vstd::prelude::*;
use crate::bitboard::BitBoard;
use crate::util::{spec_try_offset, try_square_offset};

verus! {

/* This module holds the logic that turns a slider piece's rays into the
/ magic lookup tables the move generator indexes: the ray walks, the blocker
/ masks, the table filler and the search for magic numbers. */

/// One square's entry of a magic table: the relevant-occupancy mask, the
/// magic multiplier, the shift and the offset into the flat move table.
#[derive(Debug, Copy, Clone)]
pub struct MagicTableEntry {
    pub mask: u64,
    pub magic: u64,
    pub shift: u8,
    pub offset: u32,
}

/// An entry can index a flat table of length `len`: every hash of the masked
/// occupancy lands between the offset and the offset plus the entry's span.
pub open spec fn entry_ok(e: MagicTableEntry, len: int) -> bool {
    &&& 0 < e.shift < 64
    &&& e.offset + (1u64 << ((64 - e.shift) as u64)) <= len
}

/// The entry's hash is a perfect one: two different blocker subsets of its
/// mask never land on the same slot.
pub open spec fn entry_inj(e: MagicTableEntry) -> bool {
    forall|b1: u64, b2: u64|
        b1 & e.mask == b1 && b2 & e.mask == b2 && b1 != b2 ==> #[trigger] spec_magic_index(e, b1)
            != #[trigger] spec_magic_index(e, b2)
}

/// The squares' table slices lie one after another without overlap.
pub open spec fn ranges_apart(magics: Seq<MagicTableEntry>) -> bool {
    forall|s1: int, s2: int|
        0 <= s1 < s2 < magics.len() ==> (#[trigger] magics[s1]).offset + (1u64 << ((64
            - magics[s1].shift) as u64)) <= (#[trigger] magics[s2]).offset
}

/// Where an entry's slots lie: between its offset and its offset plus its
/// span.
pub proof fn lemma_magic_index_bounds(e: MagicTableEntry, b: u64)
    requires
        0 < e.shift < 64,
    ensures
        e.offset <= spec_magic_index(e, b) < e.offset + (1u64 << ((64 - e.shift) as u64)),
{
    let h = vstd::wrapping::u64_specs::wrapping_mul(b & e.mask, e.magic);
    let sh = e.shift as u64;
    assert(h >> sh < 1u64 << ((64 - sh) as u64)) by (bit_vector)
        requires
            0 < sh < 64,
    ;
}

/// The defining property of a filled table: the slot an occupancy hashes to
/// holds that occupancy's ray-move set.
pub open spec fn table_slot_ok(
    dirs: Seq<(i8, i8)>,
    e: MagicTableEntry,
    table: Seq<BitBoard>,
    square: u8,
    b: u64,
) -> bool {
    table[spec_magic_index(e, b)].0 == spec_moves_upto(dirs, 4, square, b)
}

/// The flat-table slot for an occupancy: mask, multiply, shift, add the offset.
pub open spec fn spec_magic_index(e: MagicTableEntry, blockers: u64) -> int {
    e.offset + (vstd::wrapping::u64_specs::wrapping_mul(blockers & e.mask, e.magic) >> (
    e.shift as u64))
}

pub fn magic_index(entry: &MagicTableEntry, blockers: BitBoard) -> (r: usize)
    requires
        0 < entry.shift < 64,
        entry.offset + (1u64 << ((64 - entry.shift) as u64)) <= usize::MAX,
    ensures
        r == spec_magic_index(*entry, blockers.0),
        r < entry.offset + (1u64 << ((64 - entry.shift) as u64)),
{
    let blockers = blockers.0 & entry.mask;
    let hash = blockers.wrapping_mul(entry.magic);
    let index = (hash >> entry.shift) as usize;
    proof {
        let s = entry.shift as u64;
        assert(hash >> s < 1u64 << ((64 - s) as u64)) by (bit_vector)
            requires
                0 < s < 64,
        ;
    }
    entry.offset as usize + index
}

/// How far a walk from `sq` along `(dx, dy)` can still go: the sum of the
/// distances to the edges that the walk approaches.
pub open spec fn ray_measure(sq: u8, dx: i8, dy: i8) -> int {
    (if dx > 0 {
        7 - (sq % 8)
    } else if dx < 0 {
        (sq % 8) as int
    } else {
        16
    }) + (if dy > 0 {
        7 - (sq / 8)
    } else if dy < 0 {
        (sq / 8) as int
    } else {
        16
    })
}

/// The squares a ray from `ray` along `(dx, dy)` reaches, gathered into
/// `acc`: the walk stops on a blocker or at the board edge.
pub open spec fn spec_ray_moves(acc: u64, ray: u8, dx: i8, dy: i8, blockers: u64) -> u64
    decreases ray_measure(ray, dx, dy),
    via spec_ray_moves_decreases
{
    if (dx == 0 && dy == 0) || ray >= 64 {
        acc
    } else if (blockers & (1u64 << (ray as u64))) != 0 {
        acc
    } else {
        match spec_try_offset(ray, dx, dy) {
            None => acc,
            Some(n) => spec_ray_moves(acc | (1u64 << (n as u64)), n, dx, dy, blockers),
        }
    }
}

proof fn lemma_offset_measure(ray: u8, dx: i8, dy: i8)
    requires
        ray < 64,
        !(dx == 0 && dy == 0),
        (spec_try_offset(ray, dx, dy) is Some),
    ensures
        (spec_try_offset(ray, dx, dy) matches Some(n) ==> n < 64 && 0 <= ray_measure(n, dx, dy)
            < ray_measure(ray, dx, dy)),
{
    let nf = (ray % 8) + dx;
    let nr = (ray / 8) + dy;
    if 0 <= nf <= 7 && 0 <= nr <= 7 {
        let n = (nr * 8 + nf) as u8;
        assert(n == nr * 8 + nf);
        assert(n as int % 8 == nf && n as int / 8 == nr) by (nonlinear_arith)
            requires
                0 <= nf <= 7,
                0 <= nr <= 7,
                n == nr * 8 + nf,
        ;
    }
}

#[via_fn]
proof fn spec_ray_moves_decreases(acc: u64, ray: u8, dx: i8, dy: i8, blockers: u64) {
    if !((dx == 0 && dy == 0) || ray >= 64) && (blockers & (1u64 << (ray as u64))) == 0 {
        if spec_try_offset(ray, dx, dy) is Some {
            lemma_offset_measure(ray, dx, dy);
        }
    }
}

/// The squares a walk from `ray` along `(dx, dy)` crosses before the edge,
/// gathered into `acc`: each square the walk leaves is recorded.
pub open spec fn spec_ray_blockers(acc: u64, ray: u8, dx: i8, dy: i8) -> u64
    decreases ray_measure(ray, dx, dy),
    via spec_ray_blockers_decreases
{
    if (dx == 0 && dy == 0) || ray >= 64 {
        acc
    } else {
        match spec_try_offset(ray, dx, dy) {
            None => acc,
            Some(n) => spec_ray_blockers(acc | (1u64 << (ray as u64)), n, dx, dy),
        }
    }
}

#[via_fn]
proof fn spec_ray_blockers_decreases(acc: u64, ray: u8, dx: i8, dy: i8) {
    if !((dx == 0 && dy == 0) || ray >= 64) {
        if spec_try_offset(ray, dx, dy) is Some {
            lemma_offset_measure(ray, dx, dy);
        }
    }
}

/// The moves of a slider on `square`, fanned out over the first `k` of its
/// directions.
pub open spec fn spec_moves_upto(dirs: Seq<(i8, i8)>, k: int, square: u8, blockers: u64) -> u64
    decreases k,
{
    if k <= 0 {
        0
    } else {
        spec_ray_moves(
            spec_moves_upto(dirs, k - 1, square, blockers),
            square,
            dirs[k - 1].0,
            dirs[k - 1].1,
            blockers,
        )
    }
}

/// The blocker squares of a slider on `square`, fanned out over the first
/// `k` of its directions; the piece's own square never blocks it.
pub open spec fn spec_blockers_upto(dirs: Seq<(i8, i8)>, k: int, square: u8) -> u64
    decreases k,
{
    if k <= 0 {
        0
    } else {
        spec_ray_blockers(spec_blockers_upto(dirs, k - 1, square), square, dirs[k - 1].0, dirs[k
            - 1].1)
    }
}

fn walk_ray_moves(acc0: u64, start: u8, dx: i8, dy: i8, blockers: u64) -> (r: u64)
    requires
        start < 64,
        -1 <= dx <= 1,
        -1 <= dy <= 1,
        !(dx == 0 && dy == 0),
    ensures
        r == spec_ray_moves(acc0, start, dx, dy, blockers),
    decreases ray_measure(start, dx, dy),
{
    /* Find possible moves with the following procedure:
    /  1. Start at the piece's square.
    /  2. Try to offset the square by the delta direction.
    /  3. The walk terminates if that square is in the list of blockers.
    /  4. If not, the square gets added to the moves. */
    if (blockers & (1u64 << start)) != 0 {
        return acc0;
    }
    match try_square_offset(start, dx, dy) {
        Some(n) => {
            proof {
                lemma_offset_measure(start, dx, dy);
            }
            walk_ray_moves(acc0 | (1u64 << n), n, dx, dy, blockers)
        },
        None => acc0,
    }
}

fn walk_ray_blockers(acc0: u64, start: u8, dx: i8, dy: i8) -> (r: u64)
    requires
        start < 64,
        -1 <= dx <= 1,
        -1 <= dy <= 1,
        !(dx == 0 && dy == 0),
    ensures
        r == spec_ray_blockers(acc0, start, dx, dy),
    decreases ray_measure(start, dx, dy),
{
    match try_square_offset(start, dx, dy) {
        Some(n) => {
            proof {
                lemma_offset_measure(start, dx, dy);
            }
            walk_ray_blockers(acc0 | (1u64 << start), n, dx, dy)
        },
        None => acc0,
    }
}

/// A slider piece, as the four directions it moves along.
#[derive(PartialEq, Eq)]
pub struct SlidingPiece {
    pub directions: [(i8, i8); 4],
}

impl SlidingPiece {
    /// The directions are unit steps, and none stands still.
    pub open spec fn wf(self) -> bool {
        forall|k: int|
            0 <= k < 4 ==> -1 <= (#[trigger] self.directions@[k]).0 <= 1 && -1
                <= self.directions@[k].1 <= 1 && !(self.directions@[k].0 == 0
                && self.directions@[k].1 == 0)
    }

    // Returns a bitboard of all possible moves for a slider piece considering blockers.
    pub fn moves(&self, square: u8, blockers: BitBoard) -> (r: BitBoard)
        requires
            self.wf(),
            square < 64,
        ensures
            r.0 == spec_moves_upto(self.directions@, 4, square, blockers.0),
    {
        let mut moves = BitBoard::empty();
        let mut d: usize = 0;
        while d < 4
            invariant
                d <= 4,
                self.wf(),
                square < 64,
                moves.0 == spec_moves_upto(self.directions@, d as int, square, blockers.0),
            decreases 4 - d,
        {
            let (dx, dy) = self.directions[d];
            moves = BitBoard(walk_ray_moves(moves.0, square, dx, dy, blockers.0));
            d = d + 1;
        }
        moves
    }

    /* Returns a bitboard of all potential squares that block the slider
    / piece. This later gets used as a mask to map the blocker squares to a
    / hash table. */
    pub fn blocker_squares(&self, square: u8) -> (r: BitBoard)
        requires
            self.wf(),
            square < 64,
        ensures
            r.0 == spec_blockers_upto(self.directions@, 4, square) & !(1u64 << (square as u64)),
    {
        let mut blockers = BitBoard::empty();
        let mut d: usize = 0;
        while d < 4
            invariant
                d <= 4,
                self.wf(),
                square < 64,
                blockers.0 == spec_blockers_upto(self.directions@, d as int, square),
            decreases 4 - d,
        {
            let (dx, dy) = self.directions[d];
            blockers = BitBoard(walk_ray_blockers(blockers.0, square, dx, dy));
            d = d + 1;
        }
        blockers = BitBoard(blockers.0 & !(1u64 << square));
        blockers
    }
}

/// The rook's four ray directions.
pub open spec fn rook_dirs() -> Seq<(i8, i8)> {
    seq![(0i8, 1i8), (0i8, -1i8), (1i8, 0i8), (-1i8, 0i8)]
}

/// The bishop's four ray directions.
pub open spec fn bishop_dirs() -> Seq<(i8, i8)> {
    seq![(1i8, 1i8), (1i8, -1i8), (-1i8, 1i8), (-1i8, -1i8)]
}

// Predefined directions for each slider piece.
pub fn rook() -> (r: SlidingPiece)
    ensures
        r.directions@ == rook_dirs(),
        r.wf(),
{
    let r = SlidingPiece { directions: [(0, 1), (0, -1), (1, 0), (-1, 0)] };
    proof {
        assert(r.directions@ =~= rook_dirs());
    }
    r
}

pub fn bishop() -> (r: SlidingPiece)
    ensures
        r.directions@ == bishop_dirs(),
        r.wf(),
{
    let r = SlidingPiece { directions: [(1, 1), (1, -1), (-1, 1), (-1, -1)] };
    proof {
        assert(r.directions@ =~= bishop_dirs());
    }
    r
}

/// A deterministic pseudo-random source for the magic search, seeded the
/// same way in every run.
pub struct Rng(pub u64);

/// The mixing steps a state goes through to yield one output word.
pub open spec fn spec_mix(s: u64) -> u64 {
    let z0 = vstd::wrapping::u64_specs::wrapping_mul(s ^ (s >> 30), 0xBF58476D1CE4E5B9);
    let z1 = vstd::wrapping::u64_specs::wrapping_mul(z0 ^ (z0 >> 27), 0x94D049BB133111EB);
    z1 ^ (z1 >> 31)
}

impl Rng {
    pub fn next_u64(&mut self) -> (r: u64)
        ensures
            final(self).0 == vstd::wrapping::u64_specs::wrapping_add(
                old(self).0,
                0x9E3779B97F4A7C15,
            ),
            r == spec_mix(final(self).0),
    {
        self.0 = self.0.wrapping_add(0x9E3779B97F4A7C15);
        let s = self.0;
        let z0 = (s ^ (s >> 30u64)).wrapping_mul(0xBF58476D1CE4E5B9);
        let z1 = (z0 ^ (z0 >> 27u64)).wrapping_mul(0x94D049BB133111EB);
        z1 ^ (z1 >> 31u64)
    }
}

impl Default for Rng {
    fn default() -> (r: Self)
        ensures
            r.0 == 0x193A6754A8A7D469,
    {
        Rng(0x193A6754A8A7D469)
    }
}

/// The carry-rippler step walks the subsets of a mask in increasing order:
/// from a subset it reaches a larger subset or, after the last subset, the
/// whole mask itself, zero.
pub(crate) proof fn lemma_rippler_step(b: u64, m: u64)
    requires
        b & m == b,
    ensures
        (vstd::wrapping::u64_specs::wrapping_sub(b, m) & m) & m
            == vstd::wrapping::u64_specs::wrapping_sub(b, m) & m,
        vstd::wrapping::u64_specs::wrapping_sub(b, m) & m == 0
            || vstd::wrapping::u64_specs::wrapping_sub(b, m) & m > b,
        vstd::wrapping::u64_specs::wrapping_sub(b, m) & m == 0 ==> b == m,
        b <= m,
        vstd::wrapping::u64_specs::wrapping_sub(b, m) & m <= m,
{
    let w = vstd::wrapping::u64_specs::wrapping_sub(b, m);
    assert(b - m < 0 ==> w == (b - m + 0x1_0000_0000_0000_0000) as u64);
    assert(b - m >= 0 ==> w == (b - m) as u64);
    assert((w & m) & m == w & m && b <= m && w & m <= m && (b & m == b ==> (w & m == 0 || w & m
        > b)) && (w & m == 0 ==> b == m)) by (bit_vector)
        requires
            b & m == b,
            (b - m < 0 ==> w == (b - m + 0x1_0000_0000_0000_0000) as u64) && (b - m >= 0 ==> w == (
            b - m) as u64),
    ;
}

/// The carry-rippler step reaches the very next subset: no other subset of
/// the mask lies between a subset and its successor.
pub(crate) proof fn lemma_rippler_min(b: u64, m: u64, c: u64)
    requires
        b & m == b,
        c & m == c,
        c > b,
    ensures
        c >= vstd::wrapping::u64_specs::wrapping_sub(b, m) & m,
{
    let w = vstd::wrapping::u64_specs::wrapping_sub(b, m);
    assert(b - m < 0 ==> w == (b - m + 0x1_0000_0000_0000_0000) as u64);
    assert(b - m >= 0 ==> w == (b - m) as u64);
    assert(c >= w & m) by (bit_vector)
        requires
            b & m == b,
            c & m == c,
            c > b,
            (b - m < 0 ==> w == (b - m + 0x1_0000_0000_0000_0000) as u64) && (b - m >= 0 ==> w == (
            b - m) as u64),
    ;
}

#[verifier::loop_isolation(false)]
#[verifier::rlimit(100)]
#[verifier::spinoff_prover]
pub fn make_table(table_size: usize, slider_deltas: &SlidingPiece, magics: &Vec<
    MagicTableEntry,
>) -> (table: Vec<BitBoard>)
    requires
        slider_deltas.wf(),
        magics@.len() == 64,
        forall|s: int| 0 <= s < 64 ==> entry_ok(#[trigger] magics@[s], table_size as int),
        ranges_apart(magics@),
        table_size <= usize::MAX,
    ensures
        table@.len() == table_size,
        (forall|s: int| 0 <= s < 64 ==> entry_inj(#[trigger] magics@[s])) ==> (forall|
            s: int,
            b: u64,
        |
            0 <= s < 64 && b & magics@[s].mask == b ==> #[trigger] table_slot_ok(
                slider_deltas.directions@,
                magics@[s],
                table@,
                s as u8,
                b,
            )),
{
    let ghost inj = forall|s: int| 0 <= s < 64 ==> entry_inj(#[trigger] magics@[s]);
    let mut table: Vec<BitBoard> = Vec::new();
    let mut i: usize = 0;
    while i < table_size
        invariant
            table@.len() == i,
            i <= table_size,
        decreases table_size - i,
    {
        table.push(BitBoard::empty());
        i = i + 1;
    }
    let mut square: usize = 0;
    while square < 64
        invariant
            square <= 64,
            table@.len() == table_size,
            slider_deltas.wf(),
            magics@.len() == 64,
            forall|s: int| 0 <= s < 64 ==> entry_ok(#[trigger] magics@[s], table_size as int),
            inj ==> (forall|s: int, b: u64|
                0 <= s < square && b & magics@[s].mask == b ==> #[trigger] table_slot_ok(
                    slider_deltas.directions@,
                    magics@[s],
                    table@,
                    s as u8,
                    b,
                )),
        decreases 64 - square,
    {
        let magic_entry = &magics[square];
        let mask = BitBoard(magic_entry.mask);

        let mut blockers = BitBoard::empty();
        proof {
            crate::bits::lemma_zero_bit();
            crate::bits::lemma_subset_bits();
        }
        let mut done = false;
        while !done
            invariant
                table@.len() == table_size,
                blockers.0 & mask.0 == blockers.0,
                square < 64,
                magics@.len() == 64,
                forall|s: int| 0 <= s < 64 ==> entry_ok(#[trigger] magics@[s], table_size as int),
                ranges_apart(magics@),
                entry_ok(magics@[square as int], table_size as int),
                slider_deltas.wf(),
                mask.0 == magics@[square as int].mask,
                inj ==> (forall|s: int, b: u64|
                    0 <= s < square && b & magics@[s].mask == b ==> #[trigger] table_slot_ok(
                        slider_deltas.directions@,
                        magics@[s],
                        table@,
                        s as u8,
                        b,
                    )),
                inj ==> (forall|b: u64|
                    b & mask.0 == b && (done || b < blockers.0) ==> #[trigger] table_slot_ok(
                        slider_deltas.directions@,
                        magics@[square as int],
                        table@,
                        square as u8,
                        b,
                    )),
                done ==> blockers.0 == 0,
            decreases (if done {
                0int
            } else {
                mask.0 + 2 - blockers.0
            }),
        {
            let moves = slider_deltas.moves(square as u8, blockers);
            let idx = magic_index(magic_entry, blockers);
            let ghost pre_table = table@;
            let ghost pre_blockers = blockers.0;
            table.set(idx, moves);
            proof {
                if inj {
                    // The write fills this occupancy's slot; the slices of
                    // the other squares lie apart, and within this square's
                    // slice the perfect hash keeps every earlier slot.
                    assert forall|s: int, b: u64|
                        0 <= s < square && b & magics@[s].mask == b implies #[trigger] table_slot_ok(
                        slider_deltas.directions@,
                        magics@[s],
                        table@,
                        s as u8,
                        b,
                    ) by {
                        assert(table_slot_ok(
                            slider_deltas.directions@,
                            magics@[s],
                            pre_table,
                            s as u8,
                            b,
                        ));
                        lemma_magic_index_bounds(magics@[s], b);
                        assert(magics@[s].offset + (1u64 << ((64 - magics@[s].shift) as u64))
                            <= magics@[square as int].offset);
                        lemma_magic_index_bounds(magics@[square as int], pre_blockers);
                        assert(idx >= magics@[square as int].offset);
                    }
                    assert forall|b: u64|
                        b & mask.0 == b && b <= pre_blockers implies #[trigger] table_slot_ok(
                        slider_deltas.directions@,
                        magics@[square as int],
                        table@,
                        square as u8,
                        b,
                    ) by {
                        assert(entry_inj(magics@[square as int]));
                        lemma_magic_index_bounds(magics@[square as int], b);
                        lemma_magic_index_bounds(magics@[square as int], pre_blockers);
                        if b == pre_blockers {
                            assert(table@[idx as int] == moves);
                        } else {
                            assert(b < pre_blockers);
                            assert(spec_magic_index(magics@[square as int], b)
                                != spec_magic_index(magics@[square as int], pre_blockers));
                            assert(table_slot_ok(
                                slider_deltas.directions@,
                                magics@[square as int],
                                pre_table,
                                square as u8,
                                b,
                            ));
                        }
                    }
                }
            }
            /* The carry-rippler trick enumerates all subsets of the mask,
            / getting us all relevant blocker sets. */
            proof {
                lemma_rippler_step(blockers.0, mask.0);
            }
            blockers = BitBoard(blockers.0.wrapping_sub(mask.0) & mask.0);
            if blockers.is_empty() {
                done = true;
                proof {
                    // The walk wraps to zero only after the whole mask.
                    assert(pre_blockers == mask.0);
                }
            } else {
                proof {
                    // No subset lies between one step and the next.
                    if inj {
                        assert forall|b: u64|
                            b & mask.0 == b && b < blockers.0 implies #[trigger] table_slot_ok(
                            slider_deltas.directions@,
                            magics@[square as int],
                            table@,
                            square as u8,
                            b,
                        ) by {
                            if b > pre_blockers {
                                lemma_rippler_min(pre_blockers, mask.0, b);
                            }
                        }
                    }
                }
            }
        }
        square = square + 1;
    }
    table
}

/// A magic candidate under trial: the masked occupancies are hashed by the
/// multiplier and shift alone, with no offset yet.
struct MagicEntry {
    magic: u64,
    mask: BitBoard,
    shift: u8,
}

fn trial_magic_index(entry: &MagicEntry, blockers: BitBoard) -> (r: usize)
    requires
        0 < entry.shift < 64,
        (64 - entry.shift) <= 16,
    ensures
        r == vstd::wrapping::u64_specs::wrapping_mul(blockers.0 & entry.mask.0, entry.magic) >> (
        entry.shift as u64),
        r < 1u64 << ((64 - entry.shift) as u64),
{
    // Apply the mask to the blockers to get the relevant squares.
    let blockers = blockers.0 & entry.mask.0;

    // Multiply the blockers by the magic number to get the hash.
    let hash = blockers.wrapping_mul(entry.magic);

    // Shift the hash to the right by that entry's shift value.
    let index64 = hash >> entry.shift;
    proof {
        let s = entry.shift as u64;
        assert(hash >> s < 1u64 << ((64 - s) as u64) && ((64 - s <= 16) ==> 1u64 << ((64 - s) as u64) <= 0x10000)) by (bit_vector)
            requires
                0 < s < 64,
        ;
    }
    let index = index64 as usize;
    index
}

struct TableFillError;

/// Tries to fill one square's table slice with a magic candidate; a hash
/// collision between different move sets rejects the candidate.
#[verifier::loop_isolation(false)]
fn attempt_magics(sliding_piece: &SlidingPiece, square: u8, entry: &MagicEntry) -> (r: Result<
    Vec<BitBoard>,
    TableFillError,
>)
    requires
        sliding_piece.wf(),
        square < 64,
        0 < entry.shift < 64,
        (64 - entry.shift) <= 16,
    ensures
        (r matches Ok(t) ==> t@.len() == 1u64 << ((64 - entry.shift) as u64)),
{
    // Get the actual index width.
    let shift: u8 = 64 - entry.shift;

    // Create a table with the corresponding size.
    proof {
        let s = shift as u64;
        assert(1u64 << s >= 1 && 1u64 << s <= 0x10000) by (bit_vector)
            requires
                0 < s <= 16,
        ;
    }
    let size64: u64 = 1u64 << (shift as u64);
    let size: usize = size64 as usize;
    let mut table: Vec<BitBoard> = Vec::new();
    let mut i: usize = 0;
    while i < size
        invariant
            table@.len() == i,
            i <= size,
        decreases size - i,
    {
        table.push(BitBoard::empty());
        i = i + 1;
    }
    let mut blockers = BitBoard::empty();
    proof {
        crate::bits::lemma_zero_bit();
    }

    /* Iterate over all possible blocker combinations until a hash collision
    / occurs or all combinations have been enumerated. */
    let mut done = false;
    while !done
        invariant
            table@.len() == size,
            size == 1u64 << ((64 - entry.shift) as u64),
            blockers.0 & entry.mask.0 == blockers.0,
            sliding_piece.wf(),
            square < 64,
            0 < entry.shift < 64,
        decreases (if done {
            0int
        } else {
            entry.mask.0 + 2 - blockers.0
        }),
    {
        let moves = sliding_piece.moves(square, blockers);
        let idx = trial_magic_index(entry, blockers);
        let potential_entry = table[idx];

        if potential_entry.is_empty() {
            // The slot is still empty: assign the moves to it.
            table.set(idx, moves);
        } else if !(potential_entry.0 == moves.0) {
            // A hash collision occurred: reject the candidate.
            return Err(TableFillError);
        }
        /* Enumerate all subsets of the current mask to get all relevant
        / blocker sets, with the carry-rippler trick. */
        proof {
            lemma_rippler_step(blockers.0, entry.mask.0);
        }
        blockers = BitBoard(blockers.0.wrapping_sub(entry.mask.0) & entry.mask.0);
        if blockers.is_empty() {
            done = true;
        }
    }
    Ok(table)
}

/// Searches bounded-many sparse random candidates for a magic number that
/// maps the square's blocker subsets into the table without collisions.
#[verifier::loop_isolation(false)]
fn compute_magic(sliding_piece: &SlidingPiece, square: u8, shift_amount: u8, rng_instance: &mut
    Rng) -> (r: Option<(MagicEntry, Vec<BitBoard>)>)
    requires
        sliding_piece.wf(),
        square < 64,
        0 < shift_amount <= 16,
    ensures
        (r matches Some((e, t)) ==> e.shift == 64 - shift_amount && t@.len() == 1u64 << (
        shift_amount as u64)),
{
    // Get the applicable blocker squares.
    let blockers = sliding_piece.blocker_squares(square);

    // Get the actual shift value.
    let shift: u8 = 64 - shift_amount;

    // The candidate walk is bounded so that the search provably ends; the
    // bound is far beyond what any square has ever needed.
    let mut tries: u64 = 0;
    while tries < 100000000
        invariant
            sliding_piece.wf(),
            square < 64,
            0 < shift_amount <= 16,
            shift == 64 - shift_amount,
        decreases 100000000 - tries,
    {
        /* Generate a random magic candidate with few bits set by ANDing
        / random words together. */
        let m0 = rng_instance.next_u64();
        let m1 = rng_instance.next_u64();
        let m2 = rng_instance.next_u64();
        let magic = m0 & m1 & m2;

        let magic_entry = MagicEntry { magic, mask: blockers, shift };

        // If the candidate fills the table without collisions, keep it.
        match attempt_magics(sliding_piece, square, &magic_entry) {
            Ok(magics) => {
                proof {
                    assert((64 - (64 - shift_amount)) == shift_amount);
                }
                return Some((magic_entry, magics));
            },
            Err(_) => {},
        }
        tries = tries + 1;
    }
    None
}

} // verus!
