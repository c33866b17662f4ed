use vstd::prelude::*;
use rayon::iter::{IntoParallelRefIterator, ParallelIterator};
use std::collections::HashMap;
use vstd::multiset::Multiset;
use crate::bitboard::BitBoard;
use crate::bits::bit64;
use crate::position::{Position, BoardView, col_at, fpi};
use crate::state::Color;
use crate::magics::AttackTables;
use crate::movegen;
use crate::game;
use crate::evaluation;
use crate::precompute::Rng;

verus! {

broadcast use vstd::std_specs::hash::group_hash_axioms, vstd::seq_lib::group_to_multiset_ensures;

/* The game-tree search: fail-soft negamax with alpha-beta pruning, a
/ transposition table keyed by the Zobrist hash and owned by the search that
/ created it, a capture-only quiescence search at the horizon, and a root
/ split across a worker pool. */

#[derive(Debug, Copy, Clone, Eq, PartialEq, Structural)]
enum Flag {
    Exact,
    LowerBound,
    UpperBound,
}

#[derive(Debug, Copy, Clone)]
struct TranspositionEntry {
    depth: u8,
    score: i32,
    flag: Flag,
    validity: bool,
}

/// The per-search transposition table: a hash-keyed cache of search results,
/// created fresh for each top-level search and discarded after it.
struct TranspositionTable {
    map: HashMap<u64, TranspositionEntry>,
}

impl TranspositionTable {
    /// Every cached score can be negated without overflow.
    spec fn wf(self) -> bool {
        forall|h: u64|
            self.map@.contains_key(h) ==> (#[trigger] self.map@[h]).score >= i32::MIN + 1
    }

    fn new() -> (r: Self)
        ensures
            r.wf(),
    {
        TranspositionTable { map: HashMap::new() }
    }

    // Get a position's entry from the transposition table
    fn get_entry(&self, hash: u64) -> (r: Option<TranspositionEntry>)
        requires
            self.wf(),
        ensures
            r == (if self.map@.contains_key(hash) {
                Some(self.map@[hash])
            } else {
                Option::<TranspositionEntry>::None
            }),
            (r matches Some(e) ==> e.score >= i32::MIN + 1),
    {
        match self.map.get(&hash) {
            Some(entry) => Some(*entry),
            None => None,
        }
    }

    // Store a position's entry in the transposition table. On a hash
    // collision the deeper search result wins: the entry lands under its
    // hash exactly when the slot was empty or held a shallower search, and
    // no other slot moves.
    fn store_entry(&mut self, hash: u64, entry: TranspositionEntry)
        requires
            old(self).wf(),
            entry.score >= i32::MIN + 1,
        ensures
            final(self).wf(),
            final(self).map@ == (if old(self).map@.contains_key(hash) && entry.depth <= old(
                self,
            ).map@[hash].depth {
                old(self).map@
            } else {
                old(self).map@.insert(hash, entry)
            }),
    {
        match self.map.get(&hash) {
            Some(old_entry) => {
                if entry.depth > old_entry.depth {
                    self.map.insert(hash, entry);
                }
            },
            None => {
                self.map.insert(hash, entry);
            },
        }
    }
}

/// No key appears twice in the table.
pub open spec fn keys_distinct(keys: Seq<u64>) -> bool {
    forall|a: int, b: int| 0 <= a < b < keys.len() ==> #[trigger] keys[a] != #[trigger] keys[b]
}

/// Whether the key table is free of duplicates.
#[verifier::loop_isolation(false)]
pub fn zobrist_keys_distinct(keys: &Vec<u64>) -> (r: bool)
    ensures
        r == keys_distinct(keys@),
{
    let mut i: usize = 0;
    while i < keys.len()
        invariant
            i <= keys@.len(),
            forall|a: int, b: int|
                0 <= a < b && a < i && b < keys@.len() ==> #[trigger] keys@[a] != #[trigger] keys@[b],
        decreases keys@.len() - i,
    {
        let mut j: usize = i + 1;
        while j < keys.len()
            invariant
                i < j,
                j <= keys@.len(),
                i < keys@.len(),
                forall|b: int| i < b < j ==> keys@[i as int] != #[trigger] keys@[b],
                forall|a: int, b: int|
                    0 <= a < b && a < i && b < keys@.len() ==> #[trigger] keys@[a]
                        != #[trigger] keys@[b],
            decreases keys@.len() - j,
        {
            if keys[i] == keys[j] {
                return false;
            }
            j = j + 1;
        }
        i = i + 1;
    }
    true
}

fn draw_zobrist_keys(rng_instance: &mut Rng) -> (r: Vec<u64>)
    ensures
        r@.len() == 768,
{
    let mut keys: Vec<u64> = Vec::new();
    let mut i: usize = 0;
    while i < 768
        invariant
            keys@.len() == i,
            i <= 768,
        decreases 768 - i,
    {
        keys.push(rng_instance.next_u64());
        i = i + 1;
    }
    keys
}

/// The keys the position fingerprint is built from: one pseudo-random word
/// per piece type, color and square, drawn once from the seeded generator.
/// A batch with a duplicate key is thrown away and redrawn, where the
/// original stopped the program; the seeded generator has never needed a
/// second draw, and the bounded retry keeps the function total. The
/// fingerprint ignores the side to move and the castling and en-passant
/// state, a documented aliasing risk that the depth check on every cache
/// hit keeps harmless.
pub fn initialize_zobrist_keys() -> (r: Vec<u64>)
    ensures
        r@.len() == 768,
{
    let mut rng_instance = Rng::default();
    let mut keys = draw_zobrist_keys(&mut rng_instance);
    let mut attempt: usize = 0;
    while attempt < 16
        invariant
            keys@.len() == 768,
        decreases 16 - attempt,
    {
        if zobrist_keys_distinct(&keys) {
            return keys;
        }
        keys = draw_zobrist_keys(&mut rng_instance);
        attempt = attempt + 1;
    }
    keys
}

/// The fingerprint over the first `n` squares: each occupied square XORs in
/// the key of its piece type and color. The fingerprint is a pure function
/// of piece placement; side to move, castling and en passant are outside it,
/// the documented aliasing risk that the depth check on every hit covers.
pub open spec fn spec_hash_upto(pos: Position, keys: Seq<u64>, n: int) -> u64
    decreases n,
{
    if n <= 0 {
        0
    } else {
        let h = spec_hash_upto(pos, keys, n - 1);
        let p = fpi(pos.piece_bitboards@, (n - 1) as u8);
        let c = col_at(pos.color_bitboards@, (n - 1) as u8).spec_index();
        if p != 6 {
            h ^ keys[(p + 6 * c) * 64 + (n - 1)]
        } else {
            h
        }
    }
}

#[verifier::loop_isolation(false)]
pub fn calculate_hash(pos: &Position, keys: &Vec<u64>) -> (r: u64)
    requires
        pos.well_sized(),
        keys@.len() == 768,
    ensures
        r == spec_hash_upto(*pos, keys@, 64),
{
    let mut hash: u64 = 0;
    let mut square: usize = 0;
    while square < 64
        invariant
            square <= 64,
            hash == spec_hash_upto(*pos, keys@, square as int),
        decreases 64 - square,
    {
        match pos.piece_at(square as u8) {
            Some((piece, color)) => {
                hash = hash ^ keys[(piece as usize + 6 * color.index()) * 64 + square];
            },
            None => {},
        }
        square = square + 1;
    }
    hash
}

/// Relies on SliceRandom::shuffle from rand: it permutes the vector in
/// place, so the result holds exactly the elements it started with.
#[verifier::external_body]
fn shuffle_moves(moves: &mut Vec<(u8, u8)>)
    ensures
        final(moves)@.to_multiset() == old(moves)@.to_multiset(),
        final(moves)@.len() == old(moves)@.len(),
        forall|i: int|
            0 <= i < final(moves)@.len() ==> old(moves)@.contains(#[trigger] final(moves)@[i]),
{
    rand::seq::SliceRandom::shuffle(moves.as_mut_slice(), &mut rand::thread_rng());
}

/// The facts the search carries about every move in its lists: the move is
/// one of the side's pseudo-legal moves and survived the legality filter.
pub open spec fn moves_ok(t: AttackTables, pos: Position, ms: Seq<(u8, u8)>) -> bool {
    forall|i: int|
        0 <= i < ms.len() ==> movegen::is_candidate(
            t,
            pos@,
            pos.state.active_player,
            (#[trigger] ms[i]).0,
            ms[i].1,
        ) && movegen::spec_move_safe(t, pos@, pos.state.active_player, ms[i].0, ms[i].1)
}

/// Playing `from` to `to` checkmates the side then to move.
pub open spec fn spec_mates(t: AttackTables, v: BoardView, from: u8, to: u8) -> bool {
    let v2 = game::bv_apply_move(t, v, from, to);
    game::spec_checkmated(t, v2, v2.state.active_player)
}

/// The requirements a position must meet for the search to walk it.
pub open spec fn searchable(pos: Position, t: AttackTables) -> bool {
    &&& pos.wf()
    &&& t.wf()
    &&& game::no_pawns_rank0(pos.piece_bitboards@)
    &&& game::has_king(pos@, pos.state.active_player)
    &&& game::has_king(pos@, pos.state.active_player.spec_not())
}

/// The rank a move is played in: checking moves first, then promotions,
/// then captures, then the rest.
pub open spec fn spec_move_key(t: AttackTables, pos: Position, from: u8, to: u8) -> int {
    if game::bv_apply_move(t, pos@, from, to).check {
        0
    } else if pos.spec_is_promotion(from, to) {
        1
    } else if pos.spec_is_capture(to) {
        2
    } else {
        3
    }
}

/// How many of the first `j` recorded ranks lie below `b`.
pub open spec fn count_below(keys: Seq<u8>, b: u8, j: int) -> int
    decreases j,
{
    if j <= 0 {
        0
    } else {
        count_below(keys, b, j - 1) + (if keys[j - 1] < b {
            1int
        } else {
            0int
        })
    }
}

/// How many of the first `j` recorded ranks equal `b`.
pub open spec fn count_eq(keys: Seq<u8>, b: u8, j: int) -> int
    decreases j,
{
    if j <= 0 {
        0
    } else {
        count_eq(keys, b, j - 1) + (if keys[j - 1] == b {
            1int
        } else {
            0int
        })
    }
}

/// No rank lies below zero.
proof fn lemma_count_zero(keys: Seq<u8>, j: int)
    ensures
        count_below(keys, 0, j) == 0,
    decreases j,
{
    if j > 0 {
        lemma_count_zero(keys, j - 1);
    }
}

/// The ranks below `b + 1` are those below `b` and those equal to `b`.
proof fn lemma_count_split(keys: Seq<u8>, b: u8, j: int)
    requires
        b < 255,
    ensures
        count_below(keys, (b + 1) as u8, j) == count_below(keys, b, j) + count_eq(keys, b, j),
    decreases j,
{
    if j > 0 {
        lemma_count_split(keys, b, j - 1);
    }
}

/// The moves whose first `j` recorded ranks lie below `b`, as a bag.
pub open spec fn ms_sel_below(sh: Seq<(u8, u8)>, keys: Seq<u8>, b: u8, j: int) -> Multiset<
    (u8, u8),
>
    decreases j,
{
    if j <= 0 {
        Multiset::empty()
    } else {
        let rest = ms_sel_below(sh, keys, b, j - 1);
        if keys[j - 1] < b {
            rest.insert(sh[j - 1])
        } else {
            rest
        }
    }
}

/// The moves whose first `j` recorded ranks equal `b`, as a bag.
pub open spec fn ms_sel_eq(sh: Seq<(u8, u8)>, keys: Seq<u8>, b: u8, j: int) -> Multiset<(u8, u8)>
    decreases j,
{
    if j <= 0 {
        Multiset::empty()
    } else {
        let rest = ms_sel_eq(sh, keys, b, j - 1);
        if keys[j - 1] == b {
            rest.insert(sh[j - 1])
        } else {
            rest
        }
    }
}

/// No rank lies below zero, so the bag below zero is empty.
proof fn lemma_ms_zero(sh: Seq<(u8, u8)>, keys: Seq<u8>, j: int)
    ensures
        ms_sel_below(sh, keys, 0, j) == Multiset::<(u8, u8)>::empty(),
    decreases j,
{
    if j > 0 {
        lemma_ms_zero(sh, keys, j - 1);
    }
}

/// The bag below `b + 1` is the bag below `b` together with the bag at `b`.
proof fn lemma_ms_split(sh: Seq<(u8, u8)>, keys: Seq<u8>, b: u8, j: int)
    requires
        b < 255,
    ensures
        ms_sel_below(sh, keys, (b + 1) as u8, j) == ms_sel_below(sh, keys, b, j).add(
            ms_sel_eq(sh, keys, b, j),
        ),
    decreases j,
{
    if j > 0 {
        lemma_ms_split(sh, keys, b, j - 1);
        assert(ms_sel_below(sh, keys, (b + 1) as u8, j) =~= ms_sel_below(sh, keys, b, j).add(
            ms_sel_eq(sh, keys, b, j),
        ));
    } else {
        assert(ms_sel_below(sh, keys, (b + 1) as u8, j) =~= ms_sel_below(sh, keys, b, j).add(
            ms_sel_eq(sh, keys, b, j),
        ));
    }
}

/// With every rank below four, the bag below four is the whole list.
proof fn lemma_ms_all(sh: Seq<(u8, u8)>, keys: Seq<u8>, j: int)
    requires
        keys.len() == sh.len(),
        0 <= j <= sh.len(),
        forall|idx: int| 0 <= idx < j ==> #[trigger] keys[idx] <= 3,
    ensures
        ms_sel_below(sh, keys, 4, j) == sh.subrange(0, j).to_multiset(),
    decreases j,
{
    if j == 0 {
        assert(sh.subrange(0, 0) =~= Seq::<(u8, u8)>::empty());
        assert(Seq::<(u8, u8)>::empty().to_multiset() =~= Multiset::<(u8, u8)>::empty());
    } else {
        lemma_ms_all(sh, keys, j - 1);
        assert(sh.subrange(0, j) =~= sh.subrange(0, j - 1).push(sh[j - 1]));
    }
}

/// Every rank lies below four, so the count below four is the length.
proof fn lemma_count_all(keys: Seq<u8>, j: int)
    requires
        forall|idx: int| 0 <= idx < j ==> #[trigger] keys[idx] <= 3,
    ensures
        count_below(keys, 4, j) == j || j < 0,
    decreases j,
{
    if j > 0 {
        lemma_count_all(keys, j - 1);
    }
}

/// Orders the moves by rough likelihood of being played: checking moves,
/// then promotions, then captures, then the rest, ties broken by a shuffle
/// so play does not repeat itself. The result holds as many moves as came
/// in, each of them one of the input moves, in rank order.
#[verifier::loop_isolation(false)]
fn order_moves(moves: Vec<(u8, u8)>, pos: &mut Position, tables: &AttackTables) -> (r: Vec<
    (u8, u8),
>)
    requires
        searchable(*old(pos), *tables),
        old(pos).state.half_move_counter < 255,
        moves_ok(*tables, *old(pos), moves@),
    ensures
        *final(pos) == *old(pos),
        moves_ok(*tables, *old(pos), r@),
        r@.len() == moves@.len(),
        r@.to_multiset() == moves@.to_multiset(),
        forall|i: int| 0 <= i < r@.len() ==> moves@.contains(#[trigger] r@[i]),
        forall|i: int, j: int|
            0 <= i < j < r@.len() ==> spec_move_key(
                *tables,
                *old(pos),
                (#[trigger] r@[i]).0,
                r@[i].1,
            ) <= spec_move_key(*tables, *old(pos), (#[trigger] r@[j]).0, r@[j].1),
{
    let ghost input = moves@;
    let mut shuffled = moves;
    let ghost pre = shuffled@;
    shuffle_moves(&mut shuffled);
    proof {
        assert(moves_ok(*tables, *pos, shuffled@)) by {
            assert forall|i: int| 0 <= i < shuffled@.len() implies movegen::is_candidate(
                *tables,
                pos@,
                pos.state.active_player,
                (#[trigger] shuffled@[i]).0,
                shuffled@[i].1,
            ) && movegen::spec_move_safe(
                *tables,
                pos@,
                pos.state.active_player,
                shuffled@[i].0,
                shuffled@[i].1,
            ) by {
                assert(pre.contains(shuffled@[i]));
                let j = choose|j: int| 0 <= j < pre.len() && pre[j] == shuffled@[i];
                assert(movegen::is_candidate(
                    *tables,
                    pos@,
                    pos.state.active_player,
                    pre[j].0,
                    pre[j].1,
                ));
            }
        }
    }
    // Compute each move's rank once, then gather the ranks in order; the
    // gathering is stable, like the original's sort.
    let mut keys: Vec<u8> = Vec::new();
    let mut i: usize = 0;
    while i < shuffled.len()
        invariant
            i <= shuffled@.len(),
            keys@.len() == i,
            *pos == *old(pos),
            moves_ok(*tables, *pos, shuffled@),
            shuffled@.len() == input.len(),
            forall|idx: int| 0 <= idx < shuffled@.len() ==> input.contains(#[trigger] shuffled@[idx]),
            forall|idx: int|
                0 <= idx < i ==> #[trigger] keys@[idx] == spec_move_key(
                    *tables,
                    *pos,
                    shuffled@[idx].0,
                    shuffled@[idx].1,
                ) && keys@[idx] <= 3,
        decreases shuffled@.len() - i,
    {
        let (from, to) = shuffled[i];
        proof {
            assert(movegen::is_candidate(
                *tables,
                pos@,
                pos.state.active_player,
                shuffled@[i as int].0,
                shuffled@[i as int].1,
            ));
            assert(movegen::spec_move_safe(
                *tables,
                pos@,
                pos.state.active_player,
                shuffled@[i as int].0,
                shuffled@[i as int].1,
            ));
            crate::bits::lemma_single_bit();
            assert(pos.occ_bit(from as u64) == pos.piece_bit(from as u64));
            if bit64(pos.piece_bitboards@[5].0, from as u64) {
                crate::position::mm_facts_at(
                    pos.color_bitboards@,
                    pos.piece_bitboards@,
                    from,
                    to,
                    from as u64,
                );
                if pos.state.active_player == Color::White {
                    game::lemma_pawn_targets(pos@, from, to);
                }
            }
        }
        let key: u8 = if game::would_give_check(pos, from, to, tables) {
            0
        } else if pos.is_promotion(&from, &to) {
            1
        } else if pos.is_capture(&to) {
            2
        } else {
            3
        };
        keys.push(key);
        i = i + 1;
    }
    let mut ordered: Vec<(u8, u8)> = Vec::new();
    proof {
        lemma_count_zero(keys@, keys@.len() as int);
        lemma_ms_zero(shuffled@, keys@, keys@.len() as int);
    }
    let mut bucket: u8 = 0;
    while bucket < 4
        invariant
            keys@.len() == shuffled@.len(),
            shuffled@.len() == input.len(),
            moves_ok(*tables, *old(pos), shuffled@),
            moves_ok(*tables, *old(pos), ordered@),
            *pos == *old(pos),
            bucket <= 4,
            ordered@.len() == count_below(keys@, bucket, keys@.len() as int),
            ordered@.to_multiset() == ms_sel_below(shuffled@, keys@, bucket, keys@.len() as int),
            forall|idx: int| 0 <= idx < shuffled@.len() ==> input.contains(#[trigger] shuffled@[idx]),
            forall|idx: int|
                0 <= idx < keys@.len() ==> #[trigger] keys@[idx] == spec_move_key(
                    *tables,
                    *old(pos),
                    shuffled@[idx].0,
                    shuffled@[idx].1,
                ) && keys@[idx] <= 3,
            forall|idx: int| 0 <= idx < ordered@.len() ==> input.contains(#[trigger] ordered@[idx]),
            forall|idx: int|
                0 <= idx < ordered@.len() ==> spec_move_key(
                    *tables,
                    *old(pos),
                    (#[trigger] ordered@[idx]).0,
                    ordered@[idx].1,
                ) < bucket,
            forall|a: int, b: int|
                0 <= a < b < ordered@.len() ==> spec_move_key(
                    *tables,
                    *old(pos),
                    (#[trigger] ordered@[a]).0,
                    ordered@[a].1,
                ) <= spec_move_key(*tables, *old(pos), (#[trigger] ordered@[b]).0, ordered@[b].1),
        decreases 4 - bucket,
    {
        let mut j: usize = 0;
        proof {
            assert(ordered@.to_multiset() =~= ms_sel_below(
                shuffled@,
                keys@,
                bucket,
                keys@.len() as int,
            ).add(ms_sel_eq(shuffled@, keys@, bucket, 0)));
        }
        while j < shuffled.len()
            invariant
                keys@.len() == shuffled@.len(),
                shuffled@.len() == input.len(),
                moves_ok(*tables, *old(pos), shuffled@),
                moves_ok(*tables, *old(pos), ordered@),
                j <= shuffled@.len(),
                bucket < 4,
                ordered@.len() == count_below(keys@, bucket, keys@.len() as int) + count_eq(
                    keys@,
                    bucket,
                    j as int,
                ),
                ordered@.to_multiset() == ms_sel_below(shuffled@, keys@, bucket, keys@.len() as int).add(
                    ms_sel_eq(shuffled@, keys@, bucket, j as int),
                ),
                forall|idx: int|
                    0 <= idx < shuffled@.len() ==> input.contains(#[trigger] shuffled@[idx]),
                forall|idx: int|
                    0 <= idx < keys@.len() ==> #[trigger] keys@[idx] == spec_move_key(
                        *tables,
                        *old(pos),
                        shuffled@[idx].0,
                        shuffled@[idx].1,
                    ) && keys@[idx] <= 3,
                forall|idx: int|
                    0 <= idx < ordered@.len() ==> input.contains(#[trigger] ordered@[idx]),
                forall|idx: int|
                    0 <= idx < ordered@.len() ==> spec_move_key(
                        *tables,
                        *old(pos),
                        (#[trigger] ordered@[idx]).0,
                        ordered@[idx].1,
                    ) <= bucket,
                forall|a: int, b: int|
                    0 <= a < b < ordered@.len() ==> spec_move_key(
                        *tables,
                        *old(pos),
                        (#[trigger] ordered@[a]).0,
                        ordered@[a].1,
                    ) <= spec_move_key(
                        *tables,
                        *old(pos),
                        (#[trigger] ordered@[b]).0,
                        ordered@[b].1,
                    ),
            decreases shuffled@.len() - j,
        {
            if keys[j] == bucket {
                let m = shuffled[j];
                proof {
                    assert(movegen::is_candidate(
                        *tables,
                        old(pos)@,
                        old(pos).state.active_player,
                        shuffled@[j as int].0,
                        shuffled@[j as int].1,
                    ));
                    assert(keys@[j as int] == spec_move_key(
                        *tables,
                        *old(pos),
                        shuffled@[j as int].0,
                        shuffled@[j as int].1,
                    ));
                }
                let ghost pre_ms = ordered@.to_multiset();
                ordered.push(m);
                proof {
                    assert(ordered@.to_multiset() =~= pre_ms.insert(shuffled@[j as int]));
                    assert(ordered@.to_multiset() =~= ms_sel_below(
                        shuffled@,
                        keys@,
                        bucket,
                        keys@.len() as int,
                    ).add(ms_sel_eq(shuffled@, keys@, bucket, j + 1)));
                }
            }
            j = j + 1;
        }
        proof {
            lemma_count_split(keys@, bucket, keys@.len() as int);
            lemma_ms_split(shuffled@, keys@, bucket, keys@.len() as int);
        }
        bucket = bucket + 1;
    }
    proof {
        lemma_count_all(keys@, keys@.len() as int);
        lemma_ms_all(shuffled@, keys@, keys@.len() as int);
        assert(shuffled@.subrange(0, shuffled@.len() as int) =~= shuffled@);
    }
    ordered
}

/// One step of the search: the fail-soft negamax over the move list, with
/// the cached window tightening and the quiescence extension at the
/// horizon. The score it returns can always be negated safely.
#[verifier::loop_isolation(false)]
#[verifier::rlimit(100)]
#[verifier::spinoff_prover]
fn negamax(
    pos: &mut Position,
    tables: &AttackTables,
    keys: &Vec<u64>,
    tt: &mut TranspositionTable,
    alpha0: i32,
    beta0: i32,
    depth: u8,
) -> (r: i32)
    requires
        searchable(*old(pos), *tables),
        keys@.len() == 768,
        old(tt).wf(),
        alpha0 >= i32::MIN + 1,
        beta0 >= i32::MIN + 1,
        alpha0 < beta0,
        old(pos).state.half_move_counter + 2 * depth < 255,
    ensures
        final(tt).wf(),
        *final(pos) == *old(pos),
        r >= i32::MIN + 1,
        (old(tt).map@ == Map::<u64, TranspositionEntry>::empty() && game::spec_checkmated(
            *tables,
            old(pos)@,
            old(pos).state.active_player,
        )) ==> r == i32::MIN + 2,
        (old(tt).map@ == Map::<u64, TranspositionEntry>::empty() && !game::spec_checkmated(
            *tables,
            old(pos)@,
            old(pos).state.active_player,
        ) && depth == 0 && !(exists|f: u8, t2: u8|
            #[trigger] movegen::is_candidate(
                *tables,
                old(pos)@,
                old(pos).state.active_player,
                f,
                t2,
            ) && movegen::spec_move_safe(*tables, old(pos)@, old(pos).state.active_player, f, t2)
                && old(pos).spec_is_capture(t2)) && alpha0 < evaluation::spec_eval(
            *tables,
            *old(pos),
        ) && evaluation::spec_eval(*tables, *old(pos)) < beta0) ==> r == evaluation::spec_eval(
            *tables,
            *old(pos),
        ),
    decreases depth,
{
    // If the position was already searched deep enough, reuse its score
    let hash = calculate_hash(pos, keys);

    let mut alpha = alpha0;
    let mut beta = beta0;

    match tt.get_entry(hash) {
        Some(entry) => {
            if entry.validity && entry.depth >= depth {
                if entry.flag == Flag::Exact {
                    return entry.score;
                } else if entry.flag == Flag::LowerBound {
                    if entry.score > alpha {
                        alpha = entry.score;
                    }
                } else if entry.flag == Flag::UpperBound {
                    if entry.score < beta {
                        beta = entry.score;
                    }
                }
                if alpha >= beta {
                    return entry.score;
                }
            }
        },
        None => {},
    }
    // At a terminal node, return the evaluation
    if game::is_in_checkmate(pos, tables) {
        return i32::MIN + 2;
    } else if depth == 0 {
        if game::is_quiet_position(pos, tables) {
            return evaluation::main_evaluation(pos, tables);
        } else {
            return quiescence_search(pos, tables, alpha, beta, 64);
        }
    }
    // Retrieve and order all legal moves
    let legal_moves = movegen::get_all_legal_moves_for_color(pos.state.active_player, pos, tables);
    let legal_moves = order_moves(legal_moves, pos, tables);

    let mut score: i32 = i32::MIN + 1;

    // Iterate over all legal moves
    let mut i: usize = 0;
    while i < legal_moves.len()
        invariant
            searchable(*pos, *tables),
            keys@.len() == 768,
            tt.wf(),
            *pos == *old(pos),
            moves_ok(*tables, *pos, legal_moves@),
            i <= legal_moves@.len(),
            score >= i32::MIN + 1,
            alpha >= i32::MIN + 1,
            beta >= i32::MIN + 1,
            alpha < beta,
            pos.state.half_move_counter + 2 * depth < 255,
            depth >= 1,
        decreases legal_moves@.len() - i,
    {
        let (from, to) = legal_moves[i];
        proof {
            assert(movegen::is_candidate(
                *tables,
                pos@,
                pos.state.active_player,
                legal_moves@[i as int].0,
                legal_moves@[i as int].1,
            ));
            assert(movegen::spec_move_safe(
                *tables,
                pos@,
                pos.state.active_player,
                legal_moves@[i as int].0,
                legal_moves@[i as int].1,
            ));
            crate::bits::lemma_single_bit();
            assert(pos.occ_bit(from as u64) == pos.piece_bit(from as u64));
            if bit64(pos.piece_bitboards@[5].0, from as u64) {
                crate::position::mm_facts_at(
                    pos.color_bitboards@,
                    pos.piece_bitboards@,
                    from,
                    to,
                    from as u64,
                );
                if pos.state.active_player == Color::White {
                    game::lemma_pawn_targets(pos@, from, to);
                }
            }
        }
        let mut new_pos = pos.duplicate();
        proof {
            assert(new_pos@ =~= pos@);
        }
        game::apply_move(&mut new_pos, from, to, tables);
        proof {
            game::lemma_apply_keeps_king(*tables, pos@, from, to, pos.state.active_player);
            game::lemma_apply_keeps_king(
                *tables,
                pos@,
                from,
                to,
                pos.state.active_player.spec_not(),
            );
        }
        let child = negamax(&mut new_pos, tables, keys, tt, -beta, -alpha, depth - 1);
        if -child > score {
            score = -child;
        }
        if score > alpha {
            alpha = score;
        }
        // Beta-cutoff
        if alpha >= beta {
            break ;
        }
        i = i + 1;
    }
    let flag = if score <= alpha0 {
        Flag::UpperBound
    } else if score >= beta {
        Flag::LowerBound
    } else {
        Flag::Exact
    };
    tt.store_entry(hash, TranspositionEntry { depth, score, flag, validity: true });

    // Return the best score found (or the cutoff if no improvement was made)
    score
}

/// The capture-only search at the horizon: the stand-pat evaluation is a
/// floor and a cutoff test, and a bounded chain of captures refines it.
/// The chain is bounded by the number of pieces that could ever be taken.
#[verifier::loop_isolation(false)]
#[verifier::rlimit(100)]
#[verifier::spinoff_prover]
fn quiescence_search(
    pos: &mut Position,
    tables: &AttackTables,
    alpha0: i32,
    beta: i32,
    fuel: u8,
) -> (r: i32)
    requires
        searchable(*old(pos), *tables),
        old(pos).state.half_move_counter < 255,
        alpha0 >= i32::MIN + 1,
        beta >= i32::MIN + 1,
        alpha0 < beta,
    ensures
        *final(pos) == *old(pos),
        r >= i32::MIN + 1,
        r >= alpha0,
        (!(exists|f: u8, t2: u8|
            #[trigger] movegen::is_candidate(
                *tables,
                old(pos)@,
                old(pos).state.active_player,
                f,
                t2,
            ) && movegen::spec_move_safe(*tables, old(pos)@, old(pos).state.active_player, f, t2)
                && old(pos).spec_is_capture(t2)) && alpha0 < evaluation::spec_eval(
            *tables,
            *old(pos),
        ) && evaluation::spec_eval(*tables, *old(pos)) < beta) ==> r == evaluation::spec_eval(
            *tables,
            *old(pos),
        ),
    decreases fuel,
{
    let mut alpha = alpha0;
    let stand_pat = evaluation::main_evaluation(pos, tables);
    if stand_pat >= beta {
        return beta;
    }
    if alpha < stand_pat {
        alpha = stand_pat;
    }
    // Delta pruning: a capture whose maximal material swing cannot raise
    // the score above the window is not worth searching. The window guard
    // keeps the margin arithmetic inside the type.
    let delta: i32 = 1400;
    if alpha > i32::MIN + 1 + delta && stand_pat < alpha - delta {
        return alpha;
    }
    if fuel == 0 {
        return alpha;
    }
    let all_captures = movegen::get_all_captures_for_color(pos.state.active_player, pos, tables);
    proof {
        // With no legal capture on the board, the capture list is empty and
        // the stand-pat value is final.
        if all_captures@.len() > 0 {
            assert(movegen::is_candidate(
                *tables,
                pos@,
                pos.state.active_player,
                all_captures@[0].0,
                all_captures@[0].1,
            ) && movegen::spec_move_safe(
                *tables,
                pos@,
                pos.state.active_player,
                all_captures@[0].0,
                all_captures@[0].1,
            ) && pos.spec_is_capture(all_captures@[0].1));
        }
    }
    let ghost alpha_at_loop = alpha;
    let mut i: usize = 0;
    while i < all_captures.len()
        invariant
            searchable(*pos, *tables),
            *pos == *old(pos),
            i <= all_captures@.len(),
            alpha >= i32::MIN + 1,
            alpha >= alpha0,
            beta >= i32::MIN + 1,
            alpha < beta,
            fuel >= 1,
            i == 0 ==> alpha == alpha_at_loop,
            pos.state.half_move_counter < 255,
            forall|j: int|
                0 <= j < all_captures@.len() ==> movegen::is_candidate(
                    *tables,
                    pos@,
                    pos.state.active_player,
                    (#[trigger] all_captures@[j]).0,
                    all_captures@[j].1,
                ) && movegen::spec_move_safe(
                    *tables,
                    pos@,
                    pos.state.active_player,
                    all_captures@[j].0,
                    all_captures@[j].1,
                ) && pos.spec_is_capture(all_captures@[j].1),
        decreases all_captures@.len() - i,
    {
        let (from, to) = all_captures[i];
        proof {
            assert(movegen::is_candidate(
                *tables,
                pos@,
                pos.state.active_player,
                all_captures@[i as int].0,
                all_captures@[i as int].1,
            ));
            assert(movegen::spec_move_safe(
                *tables,
                pos@,
                pos.state.active_player,
                all_captures@[i as int].0,
                all_captures@[i as int].1,
            ));
            assert(pos.spec_is_capture(all_captures@[i as int].1));
            crate::bits::lemma_single_bit();
            assert(pos.occ_bit(from as u64) == pos.piece_bit(from as u64));
            if bit64(pos.piece_bitboards@[5].0, from as u64) {
                crate::position::mm_facts_at(
                    pos.color_bitboards@,
                    pos.piece_bitboards@,
                    from,
                    to,
                    from as u64,
                );
                if pos.state.active_player == Color::White {
                    game::lemma_pawn_targets(pos@, from, to);
                }
            }
        }
        let mut new_pos = pos.duplicate();
        proof {
            assert(new_pos@ =~= pos@);
        }
        game::apply_move(&mut new_pos, from, to, tables);
        proof {
            game::lemma_apply_keeps_king(*tables, pos@, from, to, pos.state.active_player);
            game::lemma_apply_keeps_king(
                *tables,
                pos@,
                from,
                to,
                pos.state.active_player.spec_not(),
            );
            assert(new_pos.state.half_move_counter < 255);
        }
        let child = quiescence_search(&mut new_pos, tables, -beta, -alpha, fuel - 1);
        let score = -child;
        if score >= beta {
            return beta;
        }
        if score > alpha {
            alpha = score;
        }
        i = i + 1;
    }
    alpha
}

/// One root move searched to the requested depth on its own copy of the
/// board, with its own transposition table: what one worker of the root
/// split does. An immediate checkmate short-circuits with the best score.
pub fn root_search(
    pos: &Position,
    from: u8,
    to: u8,
    depth: u8,
    tables: &AttackTables,
    keys: &Vec<u64>,
) -> (r: i32)
    requires
        searchable(*pos, *tables),
        keys@.len() == 768,
        movegen::is_candidate(*tables, pos@, pos.state.active_player, from, to),
        movegen::spec_move_safe(*tables, pos@, pos.state.active_player, from, to),
        pos.state.half_move_counter + 2 * depth + 2 < 255,
    ensures
        r >= i32::MIN + 1,
        spec_mates(*tables, pos@, from, to) ==> r == i32::MAX,
{
    proof {
        crate::bits::lemma_single_bit();
        assert(pos.occ_bit(from as u64) == pos.piece_bit(from as u64));
        if bit64(pos.piece_bitboards@[5].0, from as u64) {
            crate::position::mm_facts_at(
                pos.color_bitboards@,
                pos.piece_bitboards@,
                from,
                to,
                from as u64,
            );
            if pos.state.active_player == Color::White {
                game::lemma_pawn_targets(pos@, from, to);
            }
        }
    }
    let mut new_pos = pos.duplicate();
    proof {
        assert(new_pos@ =~= pos@);
    }
    game::apply_move(&mut new_pos, from, to, tables);
    proof {
        game::lemma_apply_keeps_king(*tables, pos@, from, to, pos.state.active_player);
        game::lemma_apply_keeps_king(*tables, pos@, from, to, pos.state.active_player.spec_not());
    }
    if game::is_in_checkmate(&mut new_pos, tables) {
        return i32::MAX;
    }
    let mut tt = TranspositionTable::new();
    let alpha = i32::MIN + 1;
    let beta = i32::MAX - 1;
    let child = negamax(&mut new_pos, tables, keys, &mut tt, alpha, beta, depth);
    -child
}

/// Relies on rayon's parallel iterator: par_iter, map and collect hand back
/// one result per input move, in the input order. The closure runs the
/// verified `root_search`, so the wrapper demands that function's
/// preconditions for every move it is handed.
#[verifier::external_body]
fn par_root_search(
    pos: &Position,
    moves: &Vec<(u8, u8)>,
    depth: u8,
    tables: &AttackTables,
    keys: &Vec<u64>,
) -> (r: Vec<(u8, u8, i32)>)
    requires
        searchable(*pos, *tables),
        keys@.len() == 768,
        moves_ok(*tables, *pos, moves@),
        pos.state.half_move_counter + 2 * depth + 2 < 255,
    ensures
        r@.len() == moves@.len(),
        forall|i: int|
            0 <= i < r@.len() ==> ((#[trigger] r@[i]).0, r@[i].1) == (moves@[i].0, moves@[i].1),
{
    moves.par_iter().map(|&(from, to)| (from, to, root_search(pos, from, to, depth, tables, keys))).collect()
}

/// The search entry point: the legal root moves are ordered and split
/// across the worker pool, each worker searches its move to the requested
/// depth, and the best score wins. A lone legal move is returned without
/// search, a move that mates at once is returned before the split begins,
/// and a position without a legal move answers with the sentinel pair,
/// a caller contract violation by design.
#[verifier::loop_isolation(false)]
#[verifier::rlimit(100)]
#[verifier::spinoff_prover]
pub fn find_best_move(pos: &mut Position, depth: u8, tables: &AttackTables) -> (r: (u8, u8))
    requires
        searchable(*old(pos), *tables),
        old(pos).state.half_move_counter + 2 * depth + 2 < 255,
    ensures
        *final(pos) == *old(pos),
        !(exists|f: u8, t2: u8|
            #[trigger] movegen::is_candidate(
                *tables,
                old(pos)@,
                old(pos).state.active_player,
                f,
                t2,
            ) && movegen::spec_move_safe(
                *tables,
                old(pos)@,
                old(pos).state.active_player,
                f,
                t2,
            )) ==> r == (0u8, 0u8),
        (exists|f: u8, t2: u8|
            #[trigger] movegen::is_candidate(
                *tables,
                old(pos)@,
                old(pos).state.active_player,
                f,
                t2,
            ) && movegen::spec_move_safe(
                *tables,
                old(pos)@,
                old(pos).state.active_player,
                f,
                t2,
            )) ==> (movegen::is_candidate(
            *tables,
            old(pos)@,
            old(pos).state.active_player,
            r.0,
            r.1,
        ) && movegen::spec_move_safe(*tables, old(pos)@, old(pos).state.active_player, r.0, r.1)),
        (exists|f: u8, t2: u8|
            #[trigger] movegen::is_candidate(
                *tables,
                old(pos)@,
                old(pos).state.active_player,
                f,
                t2,
            ) && movegen::spec_move_safe(
                *tables,
                old(pos)@,
                old(pos).state.active_player,
                f,
                t2,
            ) && spec_mates(*tables, old(pos)@, f, t2)) ==> (movegen::is_candidate(
            *tables,
            old(pos)@,
            old(pos).state.active_player,
            r.0,
            r.1,
        ) && movegen::spec_move_safe(*tables, old(pos)@, old(pos).state.active_player, r.0, r.1)
            && spec_mates(*tables, old(pos)@, r.0, r.1)),
{
    let keys = initialize_zobrist_keys();

    let legal_moves = movegen::get_all_legal_moves_for_color(pos.state.active_player, pos, tables);
    if legal_moves.len() == 1 {
        proof {
            assert(movegen::is_candidate(
                *tables,
                pos@,
                pos.state.active_player,
                legal_moves@[0].0,
                legal_moves@[0].1,
            ));
            assert forall|f: u8, t2: u8|
                movegen::is_candidate(*tables, pos@, pos.state.active_player, f, t2)
                    && movegen::spec_move_safe(
                    *tables,
                    pos@,
                    pos.state.active_player,
                    f,
                    t2,
                ) implies (f, t2) == legal_moves@[0] by {
                assert(legal_moves@.contains((f, t2)));
            }
        }
        return legal_moves[0];
    }
    // A move that mates at once is played before any search; the original
    // let one worker's find abort the others.
    let mut mi: usize = 0;
    while mi < legal_moves.len()
        invariant
            mi <= legal_moves@.len(),
            *pos == *old(pos),
            movegen::legal_moves_exact(*tables, pos@, pos.state.active_player, legal_moves@),
            forall|j: int|
                0 <= j < mi ==> !spec_mates(
                    *tables,
                    pos@,
                    (#[trigger] legal_moves@[j]).0,
                    legal_moves@[j].1,
                ),
        decreases legal_moves@.len() - mi,
    {
        let (from, to) = legal_moves[mi];
        proof {
            assert(movegen::is_candidate(
                *tables,
                pos@,
                pos.state.active_player,
                legal_moves@[mi as int].0,
                legal_moves@[mi as int].1,
            ));
            assert(movegen::spec_move_safe(
                *tables,
                pos@,
                pos.state.active_player,
                legal_moves@[mi as int].0,
                legal_moves@[mi as int].1,
            ));
            crate::bits::lemma_single_bit();
            assert(pos.occ_bit(from as u64) == pos.piece_bit(from as u64));
            if bit64(pos.piece_bitboards@[5].0, from as u64) {
                crate::position::mm_facts_at(
                    pos.color_bitboards@,
                    pos.piece_bitboards@,
                    from,
                    to,
                    from as u64,
                );
                if pos.state.active_player == Color::White {
                    game::lemma_pawn_targets(pos@, from, to);
                }
            }
        }
        let mut new_pos = pos.duplicate();
        proof {
            assert(new_pos@ =~= pos@);
        }
        game::apply_move(&mut new_pos, from, to, tables);
        proof {
            game::lemma_apply_keeps_king(*tables, pos@, from, to, pos.state.active_player);
            game::lemma_apply_keeps_king(
                *tables,
                pos@,
                from,
                to,
                pos.state.active_player.spec_not(),
            );
        }
        if game::is_in_checkmate(&mut new_pos, tables) {
            return (from, to);
        }
        mi = mi + 1;
    }
    proof {
        // No mate in one is on the board: the list held every legal move.
        assert forall|f: u8, t2: u8|
            !(#[trigger] movegen::is_candidate(*tables, pos@, pos.state.active_player, f, t2)
                && movegen::spec_move_safe(*tables, pos@, pos.state.active_player, f, t2)
                && spec_mates(*tables, pos@, f, t2)) by {
            if movegen::is_candidate(*tables, pos@, pos.state.active_player, f, t2)
                && movegen::spec_move_safe(*tables, pos@, pos.state.active_player, f, t2) {
                assert(legal_moves@.contains((f, t2)));
                let j = choose|j: int| 0 <= j < legal_moves@.len() && legal_moves@[j] == (f, t2);
                assert(!spec_mates(*tables, pos@, legal_moves@[j].0, legal_moves@[j].1));
            }
        }
    }
    let ordered_moves = order_moves(legal_moves, pos, tables);
    if ordered_moves.len() == 0 {
        // Searching a position without legal moves is a caller error; the
        // original answered it with this sentinel pair.
        proof {
            assert forall|f: u8, t2: u8|
                !(#[trigger] movegen::is_candidate(*tables, pos@, pos.state.active_player, f, t2)
                    && movegen::spec_move_safe(
                    *tables,
                    pos@,
                    pos.state.active_player,
                    f,
                    t2,
                )) by {
                if movegen::is_candidate(*tables, pos@, pos.state.active_player, f, t2)
                    && movegen::spec_move_safe(*tables, pos@, pos.state.active_player, f, t2) {
                    assert(legal_moves@.contains((f, t2)));
                }
            }
        }
        return (0, 0);
    }
    let results = par_root_search(pos, &ordered_moves, depth, tables, &keys);
    let mut best: usize = 0;
    let mut best_score: i32 = i32::MIN;
    let mut i: usize = 0;
    while i < results.len()
        invariant
            results@.len() == ordered_moves@.len(),
            moves_ok(*tables, *old(pos), ordered_moves@),
            forall|j: int|
                0 <= j < results@.len() ==> ((#[trigger] results@[j]).0, results@[j].1) == (
                ordered_moves@[j].0, ordered_moves@[j].1),
            i <= results@.len(),
            best < results@.len(),
        decreases results@.len() - i,
    {
        let (_f, _t, s) = results[i];
        if s > best_score {
            best_score = s;
            best = i;
        }
        i = i + 1;
    }
    let (bf, bt, _bs) = results[best];
    proof {
        assert(movegen::is_candidate(
            *tables,
            pos@,
            pos.state.active_player,
            ordered_moves@[best as int].0,
            ordered_moves@[best as int].1,
        ));
    }
    (bf, bt)
}

} // verus!
