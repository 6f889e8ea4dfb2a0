//! What the challenger engines share: lists of legal moves and their
//! ordering, bounded integer helpers, and the text of their diagnostics.
use vstd::prelude::*;
use crate::engine::walk::{headroom, same_position};
use crate::engines::support::{ScoredMove, ScoredMoves, selection_sorted};
use crate::engine::shared::is_pick;
use crate::rules::fen::text_chars;
use crate::rules::movegen::{generate_legal_moves, legal_moves};
use crate::rules::position::Position;
use crate::rules::types::{Move, PieceType, SpecialMove};

verus! {

pub fn min_i32(a: i32, b: i32) -> (m: i32)
    ensures
        m == (if a < b {
            a
        } else {
            b
        }),
{
    if a < b {
        a
    } else {
        b
    }
}

pub fn max_i32(a: i32, b: i32) -> (m: i32)
    ensures
        m == (if a > b {
            a
        } else {
            b
        }),
{
    if a > b {
        a
    } else {
        b
    }
}

pub fn clamp_i32(x: i32, lo: i32, hi: i32) -> (c: i32)
    requires
        lo <= hi,
    ensures
        lo <= c <= hi,
        lo <= x <= hi ==> c == x,
        c == (if x < lo {
            lo
        } else if x > hi {
            hi
        } else {
            x
        }),
{
    if x < lo {
        lo
    } else if x > hi {
        hi
    } else {
        x
    }
}

/// The moves of `list` are legal moves of `p`.
pub open spec fn listed(list: Seq<ScoredMove>, p: &Position) -> bool {
    forall|k: int| 0 <= k < list.len() ==> legal_moves(p).contains(#[trigger] list[k].mv)
}

/// Swap the best-scored move of `from..` to `from`, for each `from` in turn:
/// the list ends sorted by score, highest first, holding the same moves.
pub fn selection_sort(ml: &mut ScoredMoves, Ghost(p): Ghost<Position>)
    ensures
        final(ml)@ == selection_sorted(old(ml)@, 0),
        final(ml)@.len() == old(ml)@.len(),
        listed(old(ml)@, &p) ==> listed(final(ml)@, &p),
        final(ml)@.to_multiset() == old(ml)@.to_multiset(),
        forall|a: int, b: int| 0 <= a < b < final(ml)@.len() ==> final(ml)@[a].score >= final(ml)@[b].score,
{
    ml.selection_sort();
    proof {
        broadcast use vstd::seq_lib::to_multiset_contains;

        if listed(old(ml)@, &p) {
            assert forall|k: int| 0 <= k < ml@.len() implies legal_moves(&p).contains(#[trigger] ml@[k].mv) by {
                assert(ml@.contains(ml@[k]));
                assert(ml@.to_multiset().count(ml@[k]) > 0);
                assert(old(ml)@.contains(ml@[k]));
                let j = choose|j: int| 0 <= j < old(ml)@.len() && old(ml)@[j] == ml@[k];
                assert(legal_moves(&p).contains(old(ml)@[j].mv));
            }
        }
    }
}

/// The legal moves of `pos`, unscored.
pub fn legal_list(pos: &mut Position) -> (ml: ScoredMoves)
    requires
        headroom(old(pos), 1),
    ensures
        same_position(final(pos), old(pos)),
        ml@.len() == legal_moves(old(pos)).len(),
        forall|k: int| 0 <= k < ml@.len() ==> #[trigger] ml@[k].mv == legal_moves(old(pos))[k],
        listed(ml@, old(pos)),
{
    let mut buf: Vec<Move> = Vec::new();
    generate_legal_moves(pos, &mut buf);
    let mut ml = ScoredMoves::new();
    let n = buf.len();
    let mut i: usize = 0;
    while i < n
        invariant
            i <= n,
            n == buf@.len(),
            buf@ == legal_moves(old(pos)),
            ml@.len() == i,
            forall|k: int| 0 <= k < i ==> #[trigger] ml@[k].mv == buf@[k],
        decreases n - i,
    {
        ml.push(buf[i]);
        i += 1;
    }
    assert forall|k: int| 0 <= k < ml@.len() implies legal_moves(old(pos)).contains(#[trigger] ml@[k].mv) by {
        assert(legal_moves(old(pos))[k] == ml@[k].mv);
    }
    ml
}

/// A legal move's squares are on the board.
pub proof fn lemma_legal_is_on_board(p: &Position, m: Move)
    requires
        legal_moves(p).contains(m),
    ensures
        m.from < 64,
        m.to < 64,
{
    crate::rules::movegen::lemma_legal_is_pseudo(p, m);
    crate::engine::walk::lemma_listed_move(p, m);
}

/// Append the characters of `s`.
pub fn push_text(out: &mut Vec<char>, s: &str)
    ensures
        final(out)@ == old(out)@ + s@,
{
    let chars = text_chars(s);
    let n = chars.len();
    let mut i: usize = 0;
    while i < n
        invariant
            i <= n,
            n == chars@.len(),
            chars@ == s@,
            out@ == old(out)@ + chars@.subrange(0, i as int),
        decreases n - i,
    {
        out.push(chars[i]);
        i += 1;
        assert(chars@.subrange(0, i as int) =~= chars@.subrange(0, (i - 1) as int).push(chars@[(i - 1) as int]));
    }
    assert(chars@.subrange(0, n as int) =~= chars@);
}

/// The character of the decimal digit `d`.
pub open spec fn digit(d: nat) -> char {
    ((48 + d) as u8) as char
}

/// The decimal digits of `n`, most significant first.
pub open spec fn decimal(n: nat) -> Seq<char>
    decreases n,
{
    if n >= 10 {
        decimal(n / 10).push(digit(n % 10))
    } else {
        seq![digit(n)]
    }
}

/// `v` in decimal, with a minus sign when negative.
pub open spec fn signed_decimal(v: int) -> Seq<char> {
    if v < 0 {
        seq!['-'] + decimal((-v) as nat)
    } else {
        decimal(v as nat)
    }
}

/// Append the decimal digits of `n`.
pub fn push_u64(out: &mut Vec<char>, n: u64)
    ensures
        final(out)@ == old(out)@ + decimal(n as nat),
    decreases n,
{
    if n >= 10 {
        push_u64(out, n / 10);
    }
    let d = (n % 10) as u8;
    out.push((48u8 + d) as char);
    proof {
        if n >= 10 {
            assert(decimal(n as nat) == decimal((n / 10) as nat).push(digit((n % 10) as nat)));
        }
        assert(out@ =~= old(out)@ + decimal(n as nat));
    }
}

/// Append `v` in decimal, with a minus sign when negative.
pub fn push_i32(out: &mut Vec<char>, v: i32)
    ensures
        final(out)@ == old(out)@ + signed_decimal(v as int),
{
    if v < 0 {
        out.push('-');
        let ghost mid = out@;
        push_u64(out, (0i64 - v as i64) as u64);
        assert(out@ =~= old(out)@ + signed_decimal(v as int));
    } else {
        push_u64(out, v as u64);
    }
}

/// The coordinates of square `sq`: its file letter and rank digit.
pub open spec fn square_text(sq: u8) -> Seq<char> {
    seq![((97 + sq % 8) as u8) as char, ((49 + sq / 8) as u8) as char]
}

/// The letter of a promotion to `pt`, if it has one.
pub open spec fn promotion_text(m: Move) -> Seq<char> {
    if m.special == SpecialMove::Promotion {
        match m.promo_piece {
            PieceType::Knight => seq!['n'],
            PieceType::Bishop => seq!['b'],
            PieceType::Rook => seq!['r'],
            PieceType::Queen => seq!['q'],
            _ => seq![],
        }
    } else {
        seq![]
    }
}

/// A move in coordinate notation.
pub open spec fn uci_text(m: Move) -> Seq<char> {
    square_text(m.from) + square_text(m.to) + promotion_text(m)
}

/// Append a move in coordinate notation, with the promotion piece's letter.
pub fn push_uci(out: &mut Vec<char>, m: Move)
    requires
        m.from < 64,
        m.to < 64,
    ensures
        final(out)@ == old(out)@ + uci_text(m),
{
    out.push((97u8 + (m.from % 8)) as char);
    out.push((49u8 + (m.from / 8)) as char);
    out.push((97u8 + (m.to % 8)) as char);
    out.push((49u8 + (m.to / 8)) as char);
    if m.special == SpecialMove::Promotion {
        if m.promo_piece == PieceType::Knight {
            out.push('n');
        } else if m.promo_piece == PieceType::Bishop {
            out.push('b');
        } else if m.promo_piece == PieceType::Rook {
            out.push('r');
        } else if m.promo_piece == PieceType::Queen {
            out.push('q');
        }
    }
    assert(out@ =~= old(out)@ + uci_text(m));
}

/// Whether `keys` holds `key`.
pub fn seen_key(keys: &Vec<u64>, key: u64) -> (b: bool)
    ensures
        b == keys@.contains(key),
{
    let mut i: usize = 0;
    while i < keys.len()
        invariant
            i <= keys@.len(),
            forall|j: int| 0 <= j < i ==> keys@[j] != key,
        decreases keys@.len() - i,
    {
        if keys[i] == key {
            assert(keys@[i as int] == key);
            return true;
        }
        i += 1;
    }
    false
}

/// Whether `moves` holds `m`.
pub fn holds_move(moves: &Vec<Move>, m: Move) -> (b: bool)
    ensures
        b == moves@.contains(m),
{
    let mut i: usize = 0;
    while i < moves.len()
        invariant
            i <= moves@.len(),
            forall|j: int| 0 <= j < i ==> moves@[j] != m,
        decreases moves@.len() - i,
    {
        if moves[i] == m {
            assert(moves@[i as int] == m);
            return true;
        }
        i += 1;
    }
    false
}

/// Select the best-scored move of `i..` into `i` (the first on ties) and
/// return it; the list stays a list of legal moves of `p`.
pub fn pick_listed(ml: &mut ScoredMoves, i: usize, Ghost(p): Ghost<Position>) -> (m: Move)
    requires
        i < old(ml)@.len(),
        listed(old(ml)@, &p),
    ensures
        final(ml)@.len() == old(ml)@.len(),
        listed(final(ml)@, &p),
        m == final(ml)@[i as int].mv,
        legal_moves(&p).contains(m),
{
    let ghost before = ml@;
    ml.pick_best(i);
    assert forall|k: int| 0 <= k < ml@.len() implies legal_moves(&p).contains(#[trigger] ml@[k].mv) by {
        assert(exists|j: int| 0 <= j < before.len() && ml@[k] == before[j]);
        let j = choose|j: int| 0 <= j < before.len() && ml@[k] == before[j];
        assert(legal_moves(&p).contains(before[j].mv));
    }
    ml.get(i).mv
}

/// Move `best` to the front of the root list, when it is there: its first
/// occurrence changes places with the first move; otherwise the list stays.
pub fn bring_to_front(root: &mut ScoredMoves, best: Move, Ghost(p): Ghost<Position>)
    requires
        listed(old(root)@, &p),
    ensures
        final(root)@.len() == old(root)@.len(),
        listed(final(root)@, &p),
        (forall|k: int| 0 <= k < old(root)@.len() ==> old(root)@[k].mv != best) ==> final(root)@ == old(root)@,
        (exists|k: int| 0 <= k < old(root)@.len() && old(root)@[k].mv == best) ==> exists|k: int|
            {
                &&& 0 <= k < old(root)@.len()
                &&& old(root)@[k].mv == best
                &&& forall|j: int| 0 <= j < k ==> old(root)@[j].mv != best
                &&& final(root)@ == old(root)@.update(0, old(root)@[k]).update(k, old(root)@[0])
            },
{
    let n = root.len();
    let mut i: usize = 0;
    while i < n
        invariant
            i <= n,
            n == root@.len(),
            n == old(root)@.len(),
            listed(root@, &p),
            root@ == old(root)@,
            forall|j: int| 0 <= j < i ==> old(root)@[j].mv != best,
        decreases n - i,
    {
        if root.get(i).mv == best {
            if i != 0 {
                let first = root.get(0);
                let found = root.get(i);
                assert(legal_moves(&p).contains(root@[0].mv));
                assert(legal_moves(&p).contains(root@[i as int].mv));
                root.set(0, found);
                root.set(i, first);
            }
            assert(root@ =~= old(root)@.update(0, old(root)@[i as int]).update(i as int, old(root)@[0]));
            return;
        }
        i += 1;
    }
}

} // verus!
