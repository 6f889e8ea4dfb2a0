//! Zobrist keys: one fixed splitmix64 stream, read in table order.
use vstd::prelude::*;
use super::types::{Color, Piece, PieceType, Square, spec_file_of};

verus! {

pub const STREAM_SEED: u64 = 0x50555348434845;

pub const STREAM_GAMMA: u64 = 0x9e3779b97f4a7c15;

/// 2^64, the modulus of every wrapping operation on a key.
pub open spec fn word() -> int {
    0x1_0000_0000_0000_0000
}

/// The splitmix64 output function applied to a state.
pub open spec fn mix(state: u64) -> u64 {
    let z1 = vstd::wrapping::u64_specs::wrapping_mul(state ^ (state >> 30u64), 0xbf58476d1ce4e5b9u64);
    let z2 = vstd::wrapping::u64_specs::wrapping_mul(z1 ^ (z1 >> 27u64), 0x94d049bb133111ebu64);
    z2 ^ (z2 >> 31u64)
}

/// The generator's state after `n` draws.
pub open spec fn stream_state(n: nat) -> u64 {
    ((STREAM_SEED as int + n * STREAM_GAMMA as int) % word()) as u64
}

/// The `n`-th value (from 0) of the key stream.
pub open spec fn stream_key(n: nat) -> u64 {
    mix(stream_state(n + 1))
}

/// Stream positions: 2 colors x 7 piece types x 64 squares, then the side key,
/// sixteen castling keys and eight en-passant file keys.
pub open spec fn piece_key_index(c: int, p: int, sq: int) -> nat {
    ((c * 7 + p) * 64 + sq) as nat
}

pub open spec fn spec_side_key() -> u64 {
    stream_key(896)
}

pub open spec fn spec_castling_key(rights: int) -> u64 {
    stream_key((897 + rights) as nat)
}

pub open spec fn spec_ep_key(file: int) -> u64 {
    stream_key((913 + file) as nat)
}

/// The key of a piece on a square; an empty square contributes nothing.
pub open spec fn spec_piece_key(piece: Piece, sq: int) -> u64 {
    if piece.spec_is_empty() {
        0
    } else {
        stream_key(piece_key_index(piece.color.spec_index(), piece.piece_type.spec_index(), sq))
    }
}

/// XOR of the keys of the first `n` squares of a board.
pub open spec fn board_hash(board: Seq<Piece>, n: nat) -> u64
    decreases n,
{
    if n == 0 {
        0
    } else {
        board_hash(board, (n - 1) as nat) ^ spec_piece_key(board[n - 1], n - 1)
    }
}

/// The Zobrist hash of a whole position.
pub open spec fn position_hash(board: Seq<Piece>, side: Color, castling: u8, ep: Square) -> u64 {
    let with_side = if side == Color::Black {
        board_hash(board, 64) ^ spec_side_key()
    } else {
        board_hash(board, 64)
    };
    let with_castling = with_side ^ spec_castling_key(castling as int);
    if ep < 64 {
        with_castling ^ spec_ep_key(spec_file_of(ep))
    } else {
        with_castling
    }
}

proof fn lemma_stream_step(n: nat)
    ensures
        vstd::wrapping::u64_specs::wrapping_add(stream_state(n), STREAM_GAMMA) == stream_state(n + 1),
{
    let a = STREAM_SEED as int + n * STREAM_GAMMA as int;
    vstd::arithmetic::div_mod::lemma_mod_bound(a, word());
    vstd::arithmetic::div_mod::lemma_add_mod_noop(a, STREAM_GAMMA as int, word());
    vstd::arithmetic::div_mod::lemma_small_mod(STREAM_GAMMA as nat, word() as nat);
    let s = a % word();
    assert(s + STREAM_GAMMA < 2 * word());
    if s + STREAM_GAMMA >= word() {
        vstd::arithmetic::div_mod::lemma_small_mod((s + STREAM_GAMMA - word()) as nat, word() as nat);
        assert((s + STREAM_GAMMA) % word() == (s + STREAM_GAMMA - word()) % word()) by {
            vstd::arithmetic::div_mod::lemma_mod_sub_multiples_vanish(s + STREAM_GAMMA, word());
        }
    } else {
        vstd::arithmetic::div_mod::lemma_small_mod((s + STREAM_GAMMA) as nat, word() as nat);
    }
    assert(a + STREAM_GAMMA == STREAM_SEED as int + (n + 1) * STREAM_GAMMA as int) by (nonlinear_arith)
        requires
            a == STREAM_SEED as int + n * STREAM_GAMMA as int,
    ;
}

fn mix_exec(state: u64) -> (r: u64)
    ensures
        r == mix(state),
{
    let z = (state ^ (state >> 30)).wrapping_mul(0xbf58476d1ce4e5b9);
    let z = (z ^ (z >> 27)).wrapping_mul(0x94d049bb133111eb);
    z ^ (z >> 31)
}

/// Advance the generator and return its next value.
fn splitmix64(state: &mut u64) -> (r: u64)
    ensures
        *final(state) == vstd::wrapping::u64_specs::wrapping_add(*old(state), STREAM_GAMMA),
        r == mix(*final(state)),
{
    *state = state.wrapping_add(STREAM_GAMMA);
    mix_exec(*state)
}

/// The `n`-th stream value, computed directly from the generator's state
/// after `n + 1` draws rather than by drawing.
pub fn stream_key_at(n: u64) -> (r: u64)
    requires
        n < 1000,
    ensures
        r == stream_key(n as nat),
{
    let steps = n + 1;
    let offset = steps.wrapping_mul(STREAM_GAMMA);
    let state = STREAM_SEED.wrapping_add(offset);
    proof {
        let prod = steps as int * STREAM_GAMMA as int;
        vstd::arithmetic::div_mod::lemma_mod_bound(prod, word());
        assert(offset == prod % word());
        vstd::arithmetic::div_mod::lemma_add_mod_noop(STREAM_SEED as int, prod, word());
        vstd::arithmetic::div_mod::lemma_small_mod(STREAM_SEED as nat, word() as nat);
        let t = STREAM_SEED as int + offset as int;
        assert(t < 2 * word());
        if t >= word() {
            vstd::arithmetic::div_mod::lemma_small_mod((t - word()) as nat, word() as nat);
            vstd::arithmetic::div_mod::lemma_mod_sub_multiples_vanish(t, word());
        } else {
            vstd::arithmetic::div_mod::lemma_small_mod(t as nat, word() as nat);
        }
        assert(state == stream_state(steps as nat));
    }
    mix_exec(state)
}

/// Key of `piece_type` of color `color` on `sq`.
pub fn piece_key(color: Color, piece_type: PieceType, sq: Square) -> (r: u64)
    requires
        sq < 64,
    ensures
        r == stream_key(piece_key_index(color.spec_index(), piece_type.spec_index(), sq as int)),
{
    let n = ((color.index() * 7 + piece_type.index()) * 64 + sq as usize) as u64;
    stream_key_at(n)
}

/// Key of the piece on `sq`, zero for an empty square.
pub fn square_key(piece: Piece, sq: Square) -> (r: u64)
    requires
        sq < 64,
    ensures
        r == spec_piece_key(piece, sq as int),
{
    if piece.is_empty() {
        0
    } else {
        piece_key(piece.color, piece.piece_type, sq)
    }
}

pub fn side_key() -> (r: u64)
    ensures
        r == spec_side_key(),
{
    stream_key_at(896)
}

pub fn castling_key(rights: u8) -> (r: u64)
    requires
        rights < 16,
    ensures
        r == spec_castling_key(rights as int),
{
    stream_key_at(897 + rights as u64)
}

pub fn ep_key(file: i32) -> (r: u64)
    requires
        0 <= file < 8,
    ensures
        r == spec_ep_key(file as int),
{
    stream_key_at(913 + file as u64)
}

pub struct Zobrist {
    pub piece_keys: [[[u64; 64]; 7]; 2],
    pub side_key: u64,
    pub castling_keys: [u64; 16],
    pub ep_keys: [u64; 8],
}

impl Zobrist {
    /// Each table entry is the stream value at its position in table order.
    pub open spec fn follows_stream(&self) -> bool {
        &&& forall|c: int, p: int, sq: int|
            0 <= c < 2 && 0 <= p < 7 && 0 <= sq < 64 ==> #[trigger] self.piece_keys[c][p][sq]
                == stream_key(piece_key_index(c, p, sq))
        &&& self.side_key == spec_side_key()
        &&& forall|i: int| 0 <= i < 16 ==> #[trigger] self.castling_keys[i] == spec_castling_key(i)
        &&& forall|i: int| 0 <= i < 8 ==> #[trigger] self.ep_keys[i] == spec_ep_key(i)
    }

    fn new() -> (z: Self)
        ensures
            z.follows_stream(),
    {
        let mut state: u64 = STREAM_SEED;
        let ghost mut drawn: nat = 0;
        assert(state == stream_state(0)) by {
            vstd::arithmetic::div_mod::lemma_small_mod(STREAM_SEED as nat, word() as nat);
        }
        let mut piece_keys = [[[0u64; 64]; 7]; 2];
        let mut c: usize = 0;
        while c < 2
            invariant
                c <= 2,
                drawn == c * 448,
                state == stream_state(drawn),
                forall|c2: int, p: int, sq: int|
                    0 <= c2 < c && 0 <= p < 7 && 0 <= sq < 64 ==> #[trigger] piece_keys[c2][p][sq]
                        == stream_key(piece_key_index(c2, p, sq)),
            decreases 2 - c,
        {
            let mut row = [[0u64; 64]; 7];
            let mut p: usize = 0;
            while p < 7
                invariant
                    c < 2,
                    p <= 7,
                    drawn == c * 448 + p * 64,
                    state == stream_state(drawn),
                    forall|p2: int, sq: int|
                        0 <= p2 < p && 0 <= sq < 64 ==> #[trigger] row[p2][sq] == stream_key(
                            piece_key_index(c as int, p2, sq),
                        ),
                decreases 7 - p,
            {
                let mut keys = [0u64; 64];
                let mut sq: usize = 0;
                while sq < 64
                    invariant
                        c < 2,
                        p < 7,
                        sq <= 64,
                        drawn == c * 448 + p * 64 + sq,
                        state == stream_state(drawn),
                        forall|s2: int|
                            0 <= s2 < sq ==> #[trigger] keys[s2] == stream_key(
                                piece_key_index(c as int, p as int, s2),
                            ),
                    decreases 64 - sq,
                {
                    proof {
                        lemma_stream_step(drawn);
                    }
                    keys[sq] = splitmix64(&mut state);
                    proof {
                        assert(piece_key_index(c as int, p as int, sq as int) == drawn);
                        drawn = drawn + 1;
                    }
                    sq += 1;
                }
                row[p] = keys;
                p += 1;
            }
            piece_keys[c] = row;
            c += 1;
        }
        proof {
            lemma_stream_step(drawn);
        }
        let side_key = splitmix64(&mut state);
        proof {
            drawn = drawn + 1;
        }
        let mut castling_keys = [0u64; 16];
        let mut i: usize = 0;
        while i < 16
            invariant
                i <= 16,
                drawn == 897 + i,
                state == stream_state(drawn),
                forall|j: int| 0 <= j < i ==> #[trigger] castling_keys[j] == spec_castling_key(j),
            decreases 16 - i,
        {
            proof {
                lemma_stream_step(drawn);
            }
            castling_keys[i] = splitmix64(&mut state);
            proof {
                drawn = drawn + 1;
            }
            i += 1;
        }
        let mut ep_keys = [0u64; 8];
        let mut i: usize = 0;
        while i < 8
            invariant
                i <= 8,
                drawn == 913 + i,
                state == stream_state(drawn),
                forall|j: int| 0 <= j < i ==> #[trigger] ep_keys[j] == spec_ep_key(j),
            decreases 8 - i,
        {
            proof {
                lemma_stream_step(drawn);
            }
            ep_keys[i] = splitmix64(&mut state);
            proof {
                drawn = drawn + 1;
            }
            i += 1;
        }
        Zobrist { piece_keys, side_key, castling_keys, ep_keys }
    }
}

/// The full key tables, in the order the generator fills them.
pub fn zobrist_tables() -> (z: Zobrist)
    ensures
        z.follows_stream(),
{
    Zobrist::new()
}

pub proof fn lemma_xor_zero(x: u64)
    ensures
        x ^ 0 == x,
        0 ^ x == x,
{
    assert(x ^ 0 == x && 0 ^ x == x) by (bit_vector);
}

pub proof fn lemma_xor_self(x: u64, a: u64)
    ensures
        (x ^ a) ^ a == x,
        x ^ (a ^ a) == x,
{
    assert((x ^ a) ^ a == x && x ^ (a ^ a) == x) by (bit_vector);
}

pub proof fn lemma_xor_assoc(x: u64, a: u64, b: u64)
    ensures
        (x ^ a) ^ b == x ^ (a ^ b),
        x ^ a == a ^ x,
{
    assert((x ^ a) ^ b == x ^ (a ^ b) && x ^ a == a ^ x) by (bit_vector);
}

/// Replacing the piece on one square changes the board hash by the XOR of the
/// old and new piece keys of that square.
pub proof fn lemma_board_hash_update(b: Seq<Piece>, s: int, p: Piece, n: nat)
    requires
        0 <= s < b.len(),
        n <= b.len(),
    ensures
        board_hash(b.update(s, p), n) == if s < n {
            board_hash(b, n) ^ (spec_piece_key(b[s], s) ^ spec_piece_key(p, s))
        } else {
            board_hash(b, n)
        },
    decreases n,
{
    if n > 0 {
        let b2 = b.update(s, p);
        lemma_board_hash_update(b, s, p, (n - 1) as nat);
        let x = board_hash(b, (n - 1) as nat);
        let a = spec_piece_key(b[s], s);
        let c = spec_piece_key(p, s);
        let d = spec_piece_key(b[n - 1], n - 1);
        if s == n - 1 {
            assert((x ^ c) == (x ^ a) ^ (a ^ c)) by (bit_vector);
        } else if s < n - 1 {
            assert((x ^ (a ^ c)) ^ d == (x ^ d) ^ (a ^ c)) by (bit_vector);
        }
    }
}

/// XOR of the keys that `board` has on the first `n` of `squares`.
pub open spec fn keys_on(board: Seq<Piece>, squares: Seq<Square>, n: nat) -> u64
    decreases n,
{
    if n == 0 || n > squares.len() {
        0
    } else {
        keys_on(board, squares, (n - 1) as nat) ^ spec_piece_key(
            board[squares[n - 1] as int],
            squares[n - 1] as int,
        )
    }
}

/// `before` with the first `n` of `squares` taken from `after`.
pub open spec fn overwrite(before: Seq<Piece>, after: Seq<Piece>, squares: Seq<Square>, n: nat) -> Seq<
    Piece,
>
    decreases n,
{
    if n == 0 || n > squares.len() {
        before
    } else {
        overwrite(before, after, squares, (n - 1) as nat).update(
            squares[n - 1] as int,
            after[squares[n - 1] as int],
        )
    }
}

/// Two boards that differ only on distinct listed squares have hashes that
/// differ by the keys of both boards on those squares.
pub proof fn lemma_board_hash_delta(before: Seq<Piece>, after: Seq<Piece>, squares: Seq<Square>, n: nat)
    requires
        before.len() == 64,
        after.len() == 64,
        n <= squares.len(),
        forall|i: int| 0 <= i < squares.len() ==> #[trigger] squares[i] < 64,
        forall|i: int, j: int| 0 <= i < j < squares.len() ==> squares[i] != squares[j],
    ensures
        overwrite(before, after, squares, n).len() == 64,
        forall|q: int|
            0 <= q < 64 && !(exists|i: int| 0 <= i < n && squares[i] == q) ==> #[trigger] overwrite(
                before,
                after,
                squares,
                n,
            )[q] == before[q],
        forall|i: int| 0 <= i < n ==> #[trigger] overwrite(before, after, squares, n)[squares[i] as int]
            == after[squares[i] as int],
        board_hash(overwrite(before, after, squares, n), 64) == board_hash(before, 64) ^ (keys_on(
            before,
            squares,
            n,
        ) ^ keys_on(after, squares, n)),
    decreases n,
{
    if n == 0 {
        lemma_xor_zero(board_hash(before, 64));
        assert(0u64 ^ 0u64 == 0u64) by (bit_vector);
    } else {
        lemma_board_hash_delta(before, after, squares, (n - 1) as nat);
        let prev = overwrite(before, after, squares, (n - 1) as nat);
        let s = squares[n - 1] as int;
        assert(!(exists|i: int| 0 <= i < n - 1 && squares[i] == s));
        assert(prev[s] == before[s]);
        lemma_board_hash_update(prev, s, after[s], 64);
        let h = board_hash(before, 64);
        let kb = keys_on(before, squares, (n - 1) as nat);
        let ka = keys_on(after, squares, (n - 1) as nat);
        let a = spec_piece_key(before[s], s);
        let c = spec_piece_key(after[s], s);
        assert((h ^ (kb ^ ka)) ^ (a ^ c) == h ^ ((kb ^ a) ^ (ka ^ c))) by (bit_vector);
        assert forall|q: int|
            0 <= q < 64 && !(exists|i: int| 0 <= i < n && squares[i] == q) implies #[trigger] overwrite(
                before,
                after,
                squares,
                n,
            )[q] == before[q] by {
            assert(q != s);
            assert(!(exists|i: int| 0 <= i < n - 1 && squares[i] == q)) by {
                if exists|i: int| 0 <= i < n - 1 && squares[i] == q {
                    let i = choose|i: int| 0 <= i < n - 1 && squares[i] == q;
                    assert(0 <= i < n && squares[i] == q);
                }
            }
        }
        assert forall|i: int| 0 <= i < n implies #[trigger] overwrite(before, after, squares, n)[squares[i] as int]
            == after[squares[i] as int] by {
            if i < n - 1 {
                assert(squares[i] != squares[n - 1]);
            }
        }
    }
}

/// A board taken square by square from `after` on every square where the two
/// boards differ is `after` itself.
pub proof fn lemma_overwrite_complete(before: Seq<Piece>, after: Seq<Piece>, squares: Seq<Square>)
    requires
        before.len() == 64,
        after.len() == 64,
        forall|i: int| 0 <= i < squares.len() ==> #[trigger] squares[i] < 64,
        forall|i: int, j: int| 0 <= i < j < squares.len() ==> squares[i] != squares[j],
        forall|q: int|
            0 <= q < 64 && before[q] != after[q] ==> exists|i: int|
                0 <= i < squares.len() && #[trigger] squares[i] == q,
    ensures
        overwrite(before, after, squares, squares.len()) == after,
{
    lemma_board_hash_delta(before, after, squares, squares.len());
    let o = overwrite(before, after, squares, squares.len());
    assert forall|q: int| 0 <= q < 64 implies #[trigger] o[q] == after[q] by {
        if exists|i: int| 0 <= i < squares.len() && squares[i] == q {
            let i = choose|i: int| 0 <= i < squares.len() && squares[i] == q;
            assert(o[squares[i] as int] == after[squares[i] as int]);
        }
    }
    assert(o =~= after);
}

} // verus!
