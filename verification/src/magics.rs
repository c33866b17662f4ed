use vstd::prelude::*;
use crate::bitboard::BitBoard;
use crate::precompute::{MagicTableEntry, SlidingPiece, entry_ok, make_table, rook, bishop, rook_dirs, bishop_dirs, table_slot_ok};
use crate::bits::{popcnt, popcnt_from, lemma_popcnt_from_bound};

verus! {

/* The flattened move tables the sliding-piece lookups index. The magic
/ multipliers are fixed data found by an offline search; the masks, shifts,
/ offsets and move tables are rebuilt from them at startup by the verified
/ table filler. */

/// The magic multiplier of each square's rook entry.
pub fn rook_magic_numbers() -> (r: Vec<u64>)
    ensures
        r@.len() == 64,
{
    let mut r: Vec<u64> = Vec::new();
    r.push(0x1080001480204000);
    r.push(0x0080200081400010);
    r.push(0x0100101900200040);
    r.push(0x8080045000080081);
    r.push(0x5080040022080080);
    r.push(0x0100081203001400);
    r.push(0x11000081000A0004);
    r.push(0x0080008000224100);
    r.push(0x11048009C0008221);
    r.push(0x4202400420005000);
    r.push(0xBE02003200412080);
    r.push(0x0005002010000900);
    r.push(0x00C0800802801C00);
    r.push(0x2010808022004400);
    r.push(0x0801001500042200);
    r.push(0x2010800046800100);
    r.push(0x0020688000401080);
    r.push(0x0000C20021820105);
    r.push(0x4810088011600080);
    r.push(0x0001010008209001);
    r.push(0x0009010031080004);
    r.push(0x0202880104104020);
    r.push(0x2001240041080210);
    r.push(0x0010A20002C50884);
    r.push(0x4000208080084000);
    r.push(0x1248830100204010);
    r.push(0x8006E00080801000);
    r.push(0x0010001080080080);
    r.push(0x0001001100080004);
    r.push(0x0001020080040080);
    r.push(0x40C10B0080800200);
    r.push(0x2082208A00042041);
    r.push(0x0A80004101002181);
    r.push(0x0122400088802000);
    r.push(0x0020200880801000);
    r.push(0x0000804800801000);
    r.push(0x0002002112000804);
    r.push(0x2002008012800400);
    r.push(0x8008801100804200);
    r.push(0x9442C04082002401);
    r.push(0x0401800040058020);
    r.push(0x141000C020004001);
    r.push(0x8020120020820042);
    r.push(0x2001003810010060);
    r.push(0x000100100801000E);
    r.push(0x0002000430020048);
    r.push(0x2804061003040008);
    r.push(0x542100086081000A);
    r.push(0x0240510020800700);
    r.push(0x0010810440003500);
    r.push(0x0261801200492200);
    r.push(0x0622000810254200);
    r.push(0x1000801800240080);
    r.push(0x2210800200140080);
    r.push(0xA00200A418090200);
    r.push(0x0420009B44010200);
    r.push(0x0001C30810228001);
    r.push(0x9004420088122102);
    r.push(0x00008200D22028C2);
    r.push(0x8200041890010021);
    r.push(0x4201000448001043);
    r.push(0x8203000214008801);
    r.push(0x1401002082004C0D);
    r.push(0x0180182091004402);
    r
}

/// The magic multiplier of each square's bishop entry.
pub fn bishop_magic_numbers() -> (r: Vec<u64>)
    ensures
        r@.len() == 64,
{
    let mut r: Vec<u64> = Vec::new();
    r.push(0x0204200806028014);
    r.push(0x04119C0800C04088);
    r.push(0x2008021408208040);
    r.push(0x0002208200180000);
    r.push(0x8004142020000400);
    r.push(0x4502011048800080);
    r.push(0x0005048860888400);
    r.push(0x6042120804020892);
    r.push(0x0080302008030044);
    r.push(0x844010010204004C);
    r.push(0x0040104400404009);
    r.push(0x002008048300010C);
    r.push(0x1440020210000100);
    r.push(0x0114062220200020);
    r.push(0x6120844804242041);
    r.push(0x0440008284104250);
    r.push(0x002000102022A089);
    r.push(0x00A0000404409A00);
    r.push(0x0010401800C400A0);
    r.push(0x0018000222004500);
    r.push(0x0063800C00A02020);
    r.push(0x0001800140602003);
    r.push(0x0222220401010800);
    r.push(0x002C402205C42408);
    r.push(0x2060885851505320);
    r.push(0x4010380030091910);
    r.push(0x0808220090041040);
    r.push(0x4090040000401220);
    r.push(0x0710101001004005);
    r.push(0x0008014012014200);
    r.push(0xC441021040421010);
    r.push(0x500411021082A180);
    r.push(0x0822104062110200);
    r.push(0x81C1A42044508201);
    r.push(0x0204020180080080);
    r.push(0x8404020081080480);
    r.push(0x1010200820020020);
    r.push(0x1020050040220810);
    r.push(0x28E8008102109804);
    r.push(0x8001034100028424);
    r.push(0x0800888440009000);
    r.push(0x0800860860002208);
    r.push(0x60284200C0410404);
    r.push(0x0000A04208000880);
    r.push(0x000384010A000400);
    r.push(0x0828009004100080);
    r.push(0x0020020409000040);
    r.push(0x0004028200414200);
    r.push(0x8400610820100000);
    r.push(0x040202030C020000);
    r.push(0x0100002402080000);
    r.push(0x0804C00420A80800);
    r.push(0x0001004810241800);
    r.push(0x2000200D10048180);
    r.push(0x1820020445040382);
    r.push(0x8806108101010000);
    r.push(0x4326004108080600);
    r.push(0x000801088090090C);
    r.push(0x0010200908809040);
    r.push(0x1006102182104404);
    r.push(0x810020C020020480);
    r.push(0x0540084004280092);
    r.push(0x8400050802180603);
    r.push(0x20830401080B0104);
    r
}

/// A square always has fewer than 64 blocker squares: its own square never
/// blocks it.
proof fn lemma_popcnt_missing(b: u64, k: u64, i: int)
    requires
        k < 64,
        (b & (1u64 << k)) == 0,
        0 <= i <= k,
    ensures
        popcnt_from(b, i) <= 63 - i,
    decreases k - i,
{
    lemma_popcnt_from_bound(b, i + 1);
    if i < k {
        lemma_popcnt_missing(b, k, i + 1);
    }
}

/// Builds one slider family's 64 magic entries from its masks and magic
/// multipliers, packing their table slices back to back; returns the entries
/// and the total table size.
#[verifier::loop_isolation(false)]
fn build_magic_entries(piece: &SlidingPiece, nums: &Vec<u64>) -> (r: (Vec<MagicTableEntry>, usize))
    requires
        piece.wf(),
        nums@.len() == 64,
    ensures
        r.0@.len() == 64,
        forall|s: int| 0 <= s < 64 ==> entry_ok(#[trigger] r.0@[s], r.1 as int),
        crate::precompute::ranges_apart(r.0@),
        r.1 <= 64 * 0x10000,
{
    let mut entries: Vec<MagicTableEntry> = Vec::new();
    let mut offset: usize = 0;
    let mut square: usize = 0;
    while square < 64
        invariant
            square <= 64,
            entries@.len() == square,
            offset <= square * 0x10000,
            forall|s: int| 0 <= s < square ==> entry_ok(#[trigger] entries@[s], offset as int),
            forall|s: int|
                0 <= s < square ==> (#[trigger] entries@[s]).offset + (1u64 << ((64
                    - entries@[s].shift) as u64)) <= offset,
            crate::precompute::ranges_apart(entries@),
        decreases 64 - square,
    {
        let mask = piece.blocker_squares(square as u8);
        let cnt32 = mask.count_ones();
        proof {
            let m = mask.0;
            let k = square as u64;
            let x = crate::precompute::spec_blockers_upto(piece.directions@, 4, square as u8);
            assert(m & (1u64 << k) == 0) by (bit_vector)
                requires
                    m == x & !(1u64 << k),
            ;
            lemma_popcnt_missing(m, k, 0);
        }
        // A slider's blocker mask never holds more than twelve squares, and
        // never none; the clamp keeps the entry shape in range regardless.
        let cnt: u8 = if cnt32 == 0 {
            1
        } else if cnt32 > 16 {
            16
        } else {
            cnt32 as u8
        };
        let shift: u8 = 64 - cnt;
        let size64: u64 = 1u64 << (cnt as u64);
        proof {
            let c = cnt as u64;
            assert(1u64 << c >= 1 && 1u64 << c <= 0x10000 && 1u64 << c == 1u64 << ((64 - (64
                - c)) as u64)) by (bit_vector)
                requires
                    0 < c <= 16,
            ;
        }
        let size: usize = size64 as usize;
        entries.push(
            MagicTableEntry { mask: mask.0, magic: nums[square], shift, offset: offset as u32 },
        );
        offset = offset + size;
        square = square + 1;
    }
    (entries, offset)
}

/// The magic lookup tables for both slider families, rebuilt at startup and
/// then read only.
pub struct AttackTables {
    pub rook_magics: Vec<MagicTableEntry>,
    pub bishop_magics: Vec<MagicTableEntry>,
    pub rook_moves: Vec<BitBoard>,
    pub bishop_moves: Vec<BitBoard>,
}

impl AttackTables {
    /// Each family has one entry per square, and every entry indexes its
    /// move table in bounds.
    pub open spec fn wf(self) -> bool {
        &&& self.rook_magics@.len() == 64
        &&& self.bishop_magics@.len() == 64
        &&& self.rook_moves@.len() <= usize::MAX
        &&& self.bishop_moves@.len() <= usize::MAX
        &&& forall|s: int|
            0 <= s < 64 ==> entry_ok(#[trigger] self.rook_magics@[s], self.rook_moves@.len() as int)
        &&& forall|s: int|
            0 <= s < 64 ==> entry_ok(
                #[trigger] self.bishop_magics@[s],
                self.bishop_moves@.len() as int,
            )
    }

    /// Every slot of both move tables holds its occupancy's ray-move set:
    /// the defining property of correctly filled tables. The magic
    /// multipliers are fixed data, so the property is checked by
    /// `is_complete` rather than assumed.
    pub open spec fn good(self) -> bool {
        &&& forall|s: int, b: u64|
            0 <= s < 64 && b & self.rook_magics@[s].mask == b ==> #[trigger] table_slot_ok(
                rook_dirs(),
                self.rook_magics@[s],
                self.rook_moves@,
                s as u8,
                b,
            )
        &&& forall|s: int, b: u64|
            0 <= s < 64 && b & self.bishop_magics@[s].mask == b ==> #[trigger] table_slot_ok(
                bishop_dirs(),
                self.bishop_magics@[s],
                self.bishop_moves@,
                s as u8,
                b,
            )
    }

    /// Walks every square's blocker subsets of both families and compares
    /// each slot with a fresh ray walk; a clean pass establishes `good`.
    pub fn is_complete(&self) -> (r: bool)
        requires
            self.wf(),
        ensures
            r ==> self.good(),
    {
        let rook_piece = rook();
        let bishop_piece = bishop();
        let rook_ok = check_family(&rook_piece, &self.rook_magics, &self.rook_moves);
        let bishop_ok = check_family(&bishop_piece, &self.bishop_magics, &self.bishop_moves);
        rook_ok && bishop_ok
    }

    pub fn new() -> (r: AttackTables)
        ensures
            r.wf(),
    {
        let rook_piece = rook();
        let bishop_piece = bishop();
        let rook_nums = rook_magic_numbers();
        let bishop_nums = bishop_magic_numbers();
        let (rook_magics, rook_size) = build_magic_entries(&rook_piece, &rook_nums);
        let (bishop_magics, bishop_size) = build_magic_entries(&bishop_piece, &bishop_nums);
        let rook_moves = make_table(rook_size, &rook_piece, &rook_magics);
        let bishop_moves = make_table(bishop_size, &bishop_piece, &bishop_magics);
        proof {
            assert(rook_moves@.len() <= usize::MAX);
            assert(bishop_moves@.len() <= usize::MAX);
        }
        AttackTables { rook_magics, bishop_magics, rook_moves, bishop_moves }
    }
}


/// Compares one family's table against fresh ray walks, square by square
/// and blocker subset by blocker subset.
#[verifier::loop_isolation(false)]
#[verifier::rlimit(100)]
#[verifier::spinoff_prover]
fn check_family(piece: &SlidingPiece, magics: &Vec<MagicTableEntry>, table: &Vec<BitBoard>) -> (r:
    bool)
    requires
        piece.wf(),
        magics@.len() == 64,
        forall|s: int| 0 <= s < 64 ==> entry_ok(#[trigger] magics@[s], table@.len() as int),
        table@.len() <= usize::MAX,
    ensures
        r ==> (forall|s: int, b: u64|
            0 <= s < 64 && b & magics@[s].mask == b ==> #[trigger] table_slot_ok(
                piece.directions@,
                magics@[s],
                table@,
                s as u8,
                b,
            )),
{
    proof {
        crate::bits::lemma_zero_bit();
        crate::bits::lemma_subset_bits();
    }
    let mut square: usize = 0;
    while square < 64
        invariant
            square <= 64,
            forall|s: int, b: u64|
                0 <= s < square && b & magics@[s].mask == b ==> #[trigger] table_slot_ok(
                    piece.directions@,
                    magics@[s],
                    table@,
                    s as u8,
                    b,
                ),
        decreases 64 - square,
    {
        let magic_entry = &magics[square];
        let mask = BitBoard(magic_entry.mask);
        let mut blockers = BitBoard::empty();
        let mut done = false;
        while !done
            invariant
                blockers.0 & mask.0 == blockers.0,
                square < 64,
                mask.0 == magics@[square as int].mask,
                forall|b: u64|
                    b & mask.0 == b && (done || b < blockers.0) ==> table_slot_ok(
                        piece.directions@,
                        magics@[square as int],
                        table@,
                        square as u8,
                        #[trigger] (b & mask.0),
                    ),
                done ==> blockers.0 == 0,
            decreases (if done {
                0int
            } else {
                mask.0 + 2 - blockers.0
            }),
        {
            let moves = piece.moves(square as u8, blockers);
            let idx = crate::precompute::magic_index(magic_entry, blockers);
            if !(table[idx].0 == moves.0) {
                return false;
            }
            let ghost pre_blockers = blockers.0;
            proof {
                crate::precompute::lemma_rippler_step(blockers.0, mask.0);
            }
            blockers = BitBoard(blockers.0.wrapping_sub(mask.0) & mask.0);
            if blockers.is_empty() {
                done = true;
                proof {
                    assert(pre_blockers == mask.0);
                }
            } else {
                proof {
                    assert forall|b: u64|
                        b & mask.0 == b && b < blockers.0 implies table_slot_ok(
                        piece.directions@,
                        magics@[square as int],
                        table@,
                        square as u8,
                        #[trigger] (b & mask.0),
                    ) by {
                        if b > pre_blockers {
                            crate::precompute::lemma_rippler_min(pre_blockers, mask.0, b);
                        }
                    }
                }
            }
        }
        square = square + 1;
    }
    true
}

} // verus!
