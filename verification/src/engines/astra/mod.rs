//! Astra: the table encoding of search scores, the placement bonuses of its
//! handwritten evaluation, and its two-way transposition table.
use vstd::prelude::*;

pub mod eval;
pub mod search;
use crate::engine::shared::Buckets;
use crate::rules::types::{Color, Move, PieceType, Square, file_of, rank_of};

verus! {

pub const MATE: i32 = 30_000;

/// Scores at or beyond this magnitude are mate scores.
pub const MATE_BOUND: i32 = MATE - 256;

/// The number of buckets of the transposition table.
pub const BUCKETS: usize = 1048576;

/// A search score `score` found `ply` plies from the root, as stored: mate
/// scores are made relative to the stored position.
pub open spec fn normalized(score: i32, ply: usize) -> int {
    if score >= MATE_BOUND {
        score + ply as int
    } else if score <= -MATE_BOUND {
        score - ply as int
    } else {
        score as int
    }
}

/// The search score of a stored value read `ply` plies from the root.
pub open spec fn restored(score: i16, ply: usize) -> int {
    if score >= MATE_BOUND {
        score - ply as int
    } else if score <= -MATE_BOUND {
        score + ply as int
    } else {
        score as int
    }
}

/// Store a score; it must fit the 16-bit table field once normalized.
pub fn to_table(score: i32, ply: usize) -> (s: i16)
    requires
        ply <= i32::MAX,
        i16::MIN <= normalized(score, ply) <= i16::MAX,
    ensures
        s == normalized(score, ply),
{
    let p = ply as i32;
    let normal = if score >= MATE_BOUND {
        score + p
    } else if score <= -MATE_BOUND {
        score - p
    } else {
        score
    };
    normal as i16
}

pub fn from_table(score: i16, ply: usize) -> (s: i32)
    requires
        ply <= i32::MAX,
    ensures
        s == restored(score, ply),
{
    let p = ply as i32;
    let score = score as i32;
    if score >= MATE_BOUND {
        score - p
    } else if score <= -MATE_BOUND {
        score + p
    } else {
        score
    }
}

/// A score stored at one distance from the root and read at another comes
/// back shifted by the difference when it is a mate score, unchanged otherwise.
pub proof fn lemma_table_round_trip(score: i32, stored_at: usize, read_at: usize)
    requires
        i16::MIN <= normalized(score, stored_at) <= i16::MAX,
    ensures
        restored(normalized(score, stored_at) as i16, read_at) == if score >= MATE_BOUND {
            score + stored_at - read_at
        } else if score <= -MATE_BOUND {
            score - stored_at + read_at
        } else {
            score as int
        },
{
}

/// The packed move identifier kept in a table entry.
pub fn pack(m: Move) -> (p: u32)
    ensures
        p == m.spec_id(),
{
    m.id()
}

pub open spec fn abs(x: int) -> int {
    if x < 0 {
        -x
    } else {
        x
    }
}

pub open spec fn min(a: int, b: int) -> int {
    if a < b {
        a
    } else {
        b
    }
}

/// The placement bonus of a piece of `color` on `sq`, ranks counted from
/// the piece's own side.
pub open spec fn placement_bonus(piece: PieceType, color: Color, sq: Square, endgame: bool) -> int {
    let rank = if color == Color::White {
        sq as int / 8
    } else {
        7 - sq as int / 8
    };
    let file = sq as int % 8;
    let center = min(abs(file - 3), abs(file - 4)) + min(abs(rank - 3), abs(rank - 4));
    let advance = if rank > 3 {
        rank - 3
    } else {
        0
    };
    match piece {
        PieceType::Pawn => rank * 5 + advance * advance * 4 - abs(file - 3) * 2,
        PieceType::Knight => 32 - center * 10,
        PieceType::Bishop => 20 - center * 5,
        PieceType::Rook => if rank == 6 {
            24
        } else {
            rank * 2
        },
        PieceType::Queen => 12 - center * 3,
        PieceType::King => if endgame {
            36 - center * 12
        } else {
            -rank * 12 + if rank == 0 && (file <= 2 || file >= 6) {
                24int
            } else {
                0int
            }
        },
        PieceType::Empty => 0,
    }
}

fn abs_i32(x: i32) -> (y: i32)
    requires
        x > i32::MIN,
    ensures
        y == abs(x as int),
{
    if x < 0 {
        -x
    } else {
        x
    }
}

fn min_i32(a: i32, b: i32) -> (m: i32)
    ensures
        m == min(a as int, b as int),
{
    if a < b {
        a
    } else {
        b
    }
}

pub fn placement(piece: PieceType, color: Color, sq: Square, endgame: bool) -> (v: i32)
    ensures
        v == placement_bonus(piece, color, sq, endgame),
{
    let rank = if color == Color::White {
        rank_of(sq)
    } else {
        7 - rank_of(sq)
    };
    let file = file_of(sq);
    let center = min_i32(abs_i32(file - 3), abs_i32(file - 4)) + min_i32(abs_i32(rank - 3), abs_i32(rank - 4));
    let advance = if rank > 3 {
        rank - 3
    } else {
        0
    };
    assert(0 <= advance <= 28 ==> advance * advance <= 784) by (nonlinear_arith);
    match piece {
        PieceType::Pawn => rank * 5 + advance * advance * 4 - abs_i32(file - 3) * 2,
        PieceType::Knight => 32 - center * 10,
        PieceType::Bishop => 20 - center * 5,
        PieceType::Rook => {
            if rank == 6 {
                24
            } else {
                rank * 2
            }
        },
        PieceType::Queen => 12 - center * 3,
        PieceType::King => {
            if endgame {
                36 - center * 12
            } else {
                -rank * 12 + if rank == 0 && (file <= 2 || file >= 6) {
                    24
                } else {
                    0
                }
            }
        },
        PieceType::Empty => 0,
    }
}

#[derive(Clone, Copy, PartialEq, Eq, Debug, Structural)]
pub enum Bound {
    Empty,
    Exact,
    Lower,
    Upper,
}

impl Default for Bound {
    fn default() -> (b: Self)
        ensures
            b == Bound::Empty,
    {
        Bound::Empty
    }
}

/// A table entry: the full key, the packed move, the stored score, the depth
/// searched and the kind of bound.
#[derive(Clone, Copy, PartialEq, Eq, Debug, Structural)]
pub struct Entry {
    pub key: u64,
    pub mv: u32,
    pub score: i16,
    pub depth: u8,
    pub bound: Bound,
}

impl Default for Entry {
    fn default() -> (e: Self)
        ensures
            e == (Entry { key: 0, mv: 0, score: 0, depth: 0, bound: Bound::Empty }),
    {
        Entry { key: 0, mv: 0, score: 0, depth: 0, bound: Bound::Empty }
    }
}

/// The bucket of a key: its low twenty bits.
pub open spec fn bucket_of(key: u64) -> int {
    (key & 0xFFFFF) as int
}

/// The entry a probe finds in a bucket: the first filled entry with the key.
pub open spec fn found(bucket: [Entry; 2], key: u64) -> Option<Entry> {
    if bucket[0].bound != Bound::Empty && bucket[0].key == key {
        Some(bucket[0])
    } else if bucket[1].bound != Bound::Empty && bucket[1].key == key {
        Some(bucket[1])
    } else {
        None
    }
}

/// The way a store replaces: the first empty entry or the entry with the
/// key; otherwise the shallower entry, the first on a tie.
pub open spec fn victim(bucket: [Entry; 2], key: u64) -> int {
    if bucket[0].bound == Bound::Empty || bucket[0].key == key {
        0
    } else if bucket[1].bound == Bound::Empty || bucket[1].key == key {
        1
    } else if bucket[1].depth < bucket[0].depth {
        1
    } else {
        0
    }
}

fn bucket_index(key: u64) -> (i: usize)
    ensures
        i == bucket_of(key),
        i < BUCKETS,
{
    assert((key & 0xFFFFF) < 1048576) by (bit_vector);
    (key & 0xFFFFF) as usize
}

/// Look a key up in the table.
pub fn probe(table: &Buckets<Entry, 2>, key: u64) -> (e: Option<Entry>)
    requires
        table@.len() == BUCKETS,
    ensures
        e == found(table@[bucket_of(key)], key),
{
    let bucket = table.bucket(bucket_index(key));
    if bucket[0].bound != Bound::Empty && bucket[0].key == key {
        Some(bucket[0])
    } else if bucket[1].bound != Bound::Empty && bucket[1].key == key {
        Some(bucket[1])
    } else {
        None
    }
}

/// Store a search result: the score in table form, the depth clamped to
/// 0..=127, replacing as `victim` says.
pub fn store(table: &mut Buckets<Entry, 2>, key: u64, depth: i32, score: i32, bound: Bound, mv: Move, ply: usize)
    requires
        old(table)@.len() == BUCKETS,
        ply <= i32::MAX,
        i16::MIN <= normalized(score, ply) <= i16::MAX,
    ensures
        ({
            let b = bucket_of(key);
            let old_bucket = old(table)@[b];
            let entry = Entry {
                key,
                mv: mv.spec_id(),
                score: normalized(score, ply) as i16,
                depth: if depth < 0 {
                    0
                } else if depth > 127 {
                    127
                } else {
                    depth as u8
                },
                bound,
            };
            &&& final(table)@.len() == old(table)@.len()
            &&& forall|j: int| 0 <= j < old(table)@.len() && j != b ==> #[trigger] final(table)@[j] == old(table)@[j]
            &&& final(table)@[b]@ == old_bucket@.update(victim(old_bucket, key), entry)
        }),
{
    let index = bucket_index(key);
    let mut bucket = *table.bucket(index);
    let slot: usize = if bucket[0].bound == Bound::Empty || bucket[0].key == key {
        0
    } else if bucket[1].bound == Bound::Empty || bucket[1].key == key {
        1
    } else if bucket[1].depth < bucket[0].depth {
        1
    } else {
        0
    };
    let clamped: u8 = if depth < 0 {
        0
    } else if depth > 127 {
        127
    } else {
        depth as u8
    };
    bucket[slot] = Entry { key, mv: pack(mv), score: to_table(score, ply), depth: clamped, bound };
    table.set_bucket(index, bucket);
}

} // verus!
