//! The tiny residual network: weights read from little-endian 16-bit words,
//! both color perspectives kept incrementally with integer arithmetic.
use vstd::prelude::*;
use std::sync::Arc;
use crate::rules::types::{Color, Piece, PieceType};

verus! {

pub const WIDTH: usize = 32;

pub const FEATURES: usize = 768;

/// The size of an encoded network: the feature weights, then the biases,
/// then the output weights, each a 16-bit word.
pub const BYTES: usize = 49280;

/// The `k`-th little-endian signed 16-bit word of `bytes`.
pub open spec fn le_word(bytes: Seq<u8>, k: int) -> i16 {
    (bytes[2 * k] as int + 256 * bytes[2 * k + 1] as int) as i16
}

/// The words of `bytes`, in order: feature weight rows, biases, output weights.
pub open spec fn encodes(rows: Seq<[i16; WIDTH]>, biases: Seq<i32>, outputs: Seq<i16>, bytes: Seq<u8>) -> bool {
    &&& rows.len() == FEATURES
    &&& biases.len() == WIDTH
    &&& outputs.len() == WIDTH
    &&& forall|f: int, k: int| 0 <= f < FEATURES && 0 <= k < WIDTH ==> #[trigger] rows[f][k] == le_word(bytes, f * 32 + k)
    &&& forall|k: int| 0 <= k < WIDTH ==> #[trigger] biases[k] == le_word(bytes, 24576 + k) as i32
    &&& forall|k: int| 0 <= k < WIDTH ==> #[trigger] outputs[k] == le_word(bytes, 24608 + k)
}

/// FNV-1a over the first `n` bytes.
pub open spec fn fnv(bytes: Seq<u8>, n: nat) -> u64
    decreases n,
{
    if n == 0 || n > bytes.len() {
        0xcbf29ce484222325
    } else {
        (fnv(bytes, (n - 1) as nat) ^ (bytes[n - 1] as u64)).wrapping_mul(0x100000001b3)
    }
}

/// The weight row of a piece on `sq` seen from `perspective` (0 White, 1
/// Black): Black's view swaps the colors and mirrors the ranks.
pub open spec fn feature(piece: Piece, sq: u8, perspective: int) -> int {
    let color = if perspective == 0 {
        piece.color.spec_index()
    } else {
        1 - piece.color.spec_index()
    };
    let square = if perspective == 0 {
        sq as int
    } else {
        (sq ^ 56u8) as int
    };
    (color * 6 + piece.piece_type.spec_index() - 1) * 64 + square
}

proof fn lemma_mirror(sq: u8)
    requires
        sq < 64,
    ensures
        (sq ^ 56u8) < 64,
{
    assert(sq < 64 ==> (sq ^ 56u8) < 64) by (bit_vector);
}

pub(crate) fn feature_index(piece: Piece, sq: u8, perspective: usize) -> (i: usize)
    requires
        piece.piece_type != PieceType::Empty,
        sq < 64,
        perspective < 2,
    ensures
        i == feature(piece, sq, perspective as int),
        i < FEATURES,
{
    proof {
        lemma_mirror(sq);
    }
    let color = if perspective == 0 {
        piece.color.index()
    } else {
        1 - piece.color.index()
    };
    let square = if perspective == 0 {
        sq
    } else {
        sq ^ 56
    };
    (color * 6 + piece.piece_type.index() - 1) * 64 + square as usize
}

pub struct Network {
    weights: [[i16; WIDTH]; FEATURES],
    bias: [i32; WIDTH],
    output: [i16; WIDTH],
    pub fingerprint: u64,
}

impl Network {
    /// The feature weight rows.
    pub closed spec fn rows(&self) -> Seq<[i16; WIDTH]> {
        self.weights@
    }

    pub closed spec fn biases(&self) -> Seq<i32> {
        self.bias@
    }

    pub closed spec fn outputs(&self) -> Seq<i16> {
        self.output@
    }

    pub closed spec fn hash(&self) -> u64 {
        self.fingerprint
    }

    /// The network the words of `bytes` encode, in order: feature weights
    /// row by row, biases, output weights; its fingerprint is the FNV-1a hash
    /// of the bytes.
    pub closed spec fn encoded_by(&self, bytes: Seq<u8>) -> bool {
        &&& encodes(self.rows(), self.biases(), self.outputs(), bytes)
        &&& self.fingerprint == fnv(bytes, bytes.len())
    }

    /// What a network encoded by `bytes` holds: its weight rows, biases and
    /// output weights are the words of the bytes, and its fingerprint is the
    /// FNV-1a hash of the bytes.
    pub proof fn lemma_encoded_by(&self, bytes: Seq<u8>)
        requires
            self.encoded_by(bytes),
        ensures
            encodes(self.rows(), self.biases(), self.outputs(), bytes),
            self.hash() == fnv(bytes, bytes.len()),
    {
    }

    /// Decode a network; the input must be exactly the encoded size.
    pub fn decode(bytes: &[u8]) -> (r: Result<Network, &'static str>)
        ensures
            match r {
                Ok(n) => bytes@.len() == BYTES && n.encoded_by(bytes@),
                Err(e) => bytes@.len() != BYTES && e == "invalid Cataclysm model shape",
            },
    {
        if bytes.len() != BYTES {
            return Err("invalid Cataclysm model shape");
        }
        let mut weights = [[0i16; WIDTH]; FEATURES];
        let mut f: usize = 0;
        while f < FEATURES
            invariant
                bytes@.len() == BYTES,
                f <= FEATURES,
                forall|g: int, k: int| 0 <= g < f && 0 <= k < WIDTH ==> #[trigger] weights[g][k] == le_word(bytes@, g * 32 + k),
            decreases FEATURES - f,
        {
            let mut row = [0i16; WIDTH];
            let mut k: usize = 0;
            while k < WIDTH
                invariant
                    bytes@.len() == BYTES,
                    f < FEATURES,
                    k <= WIDTH,
                    forall|j: int| 0 <= j < k ==> #[trigger] row[j] == le_word(bytes@, f * 32 + j),
                decreases WIDTH - k,
            {
                row[k] = word_at(bytes, f * 32 + k);
                k += 1;
            }
            weights[f] = row;
            f += 1;
        }
        let mut bias = [0i32; WIDTH];
        let mut output = [0i16; WIDTH];
        let mut k: usize = 0;
        while k < WIDTH
            invariant
                bytes@.len() == BYTES,
                k <= WIDTH,
                forall|j: int| 0 <= j < k ==> #[trigger] bias[j] == le_word(bytes@, 24576 + j) as i32,
                forall|j: int| 0 <= j < k ==> #[trigger] output[j] == le_word(bytes@, 24608 + j),
            decreases WIDTH - k,
        {
            bias[k] = word_at(bytes, 24576 + k) as i32;
            output[k] = word_at(bytes, 24608 + k);
            k += 1;
        }
        let fingerprint = fnv_hash(bytes);
        Ok(Network { weights, bias, output, fingerprint })
    }
}

/// The `k`-th little-endian 16-bit word, as `i16::from_le_bytes` reads it.
fn word_at(bytes: &[u8], k: usize) -> (w: i16)
    requires
        bytes@.len() == BYTES,
        k < 24640,
    ensures
        w == le_word(bytes@, k as int),
{
    let lo = bytes[2 * k] as u32;
    let hi = bytes[2 * k + 1] as u32;
    (#[verifier::truncate] ((lo + 256 * hi) as i16))
}

/// FNV-1a, 64-bit, over all of `bytes`.
fn fnv_hash(bytes: &[u8]) -> (h: u64)
    ensures
        h == fnv(bytes@, bytes@.len()),
{
    let mut h: u64 = 0xcbf29ce484222325;
    let mut i: usize = 0;
    while i < bytes.len()
        invariant
            i <= bytes@.len(),
            h == fnv(bytes@, i as nat),
        decreases bytes@.len() - i,
    {
        h = (h ^ bytes[i] as u64).wrapping_mul(0x100000001b3);
        i += 1;
    }
    h
}

/// Immutable weights shared by the searches that use them.
#[derive(Clone)]
pub struct Model(Arc<Network>);

impl Model {
    pub closed spec fn view(&self) -> Network {
        *self.0
    }

    /// Decode a model; the error is the network's, as text.
    pub fn decode(bytes: &[u8]) -> (r: Result<Model, String>)
        ensures
            match r {
                Ok(m) => bytes@.len() == BYTES && m@.encoded_by(bytes@),
                Err(e) => bytes@.len() != BYTES && e@ == "invalid Cataclysm model shape"@,
            },
    {
        match Network::decode(bytes) {
            Ok(n) => Ok(Model(Arc::new(n))),
            Err(e) => Err(e.to_owned()),
        }
    }

    pub fn fingerprint(&self) -> (f: u64)
        ensures
            f == self@.hash(),
    {
        self.0.fingerprint
    }

    pub(crate) fn network(&self) -> (n: &Network)
        ensures
            *n == self@,
    {
        &self.0
    }
}

/// The two perspectives' hidden sums: White's first, then Black's.
#[derive(Clone, Copy, PartialEq, Eq, Debug)]
pub struct Accumulator {
    pub hidden: [[i32; WIDTH]; 2],
}

/// A hidden sum clamped to the activation range 0..=256.
pub open spec fn activation(x: i32) -> int {
    if x < 0 {
        0
    } else if x > 256 {
        256
    } else {
        x as int
    }
}

/// Rust's integer division, which rounds toward zero.
pub open spec fn div_toward_zero(a: int, b: int) -> int {
    if a >= 0 {
        a / b
    } else {
        -((-a) / b)
    }
}

/// The output layer over the first `n` hidden units: White's activation minus
/// Black's, times the output weight.
pub open spec fn residual_sum(hidden: [[i32; WIDTH]; 2], outputs: Seq<i16>, n: nat) -> int
    decreases n,
{
    if n == 0 {
        0
    } else {
        residual_sum(hidden, outputs, (n - 1) as nat) + (activation(hidden[0][n - 1]) - activation(hidden[1][n - 1]))
            * outputs[n - 1] as int
    }
}

/// Adding `sign` times a piece's weight rows keeps every hidden sum in range.
pub open spec fn update_fits(hidden: [[i32; WIDTH]; 2], piece: Piece, sq: u8, sign: i32, rows: Seq<[i16; WIDTH]>) -> bool {
    forall|p: int, k: int|
        0 <= p < 2 && 0 <= k < WIDTH ==> {
            let delta = sign as int * (#[trigger] rows[feature(piece, sq, p)][k]) as int;
            &&& i32::MIN <= delta <= i32::MAX
            &&& i32::MIN <= hidden[p][k] + delta <= i32::MAX
        }
}

/// `after` is `before` with `sign` times a piece's weight rows added, in
/// both perspectives.
pub open spec fn updated(
    before: [[i32; WIDTH]; 2],
    piece: Piece,
    sq: u8,
    sign: i32,
    rows: Seq<[i16; WIDTH]>,
    after: [[i32; WIDTH]; 2],
) -> bool {
    forall|p: int, k: int|
        0 <= p < 2 && 0 <= k < WIDTH ==> #[trigger] after[p][k] == before[p][k] + sign as int * rows[feature(
            piece,
            sq,
            p,
        )][k] as int
}

/// Adding a piece and removing it again gives back the hidden sums.
pub proof fn lemma_add_then_remove(
    start: [[i32; WIDTH]; 2],
    added: [[i32; WIDTH]; 2],
    removed: [[i32; WIDTH]; 2],
    piece: Piece,
    sq: u8,
    rows: Seq<[i16; WIDTH]>,
)
    requires
        updated(start, piece, sq, 1i32, rows, added),
        updated(added, piece, sq, -1i32, rows, removed),
    ensures
        removed == start,
{
    broadcast use vstd::array::axiom_array_ext_equal;

    assert forall|p: int| 0 <= p < 2 implies removed[p]@ =~= start[p]@ by {
        assert forall|k: int| 0 <= k < WIDTH implies removed[p][k] == start[p][k] by {
            assert(added[p][k] == start[p][k] + rows[feature(piece, sq, p)][k] as int);
            assert(removed[p][k] == added[p][k] - rows[feature(piece, sq, p)][k] as int);
        }
    }
    assert(removed[0] == start[0]);
    assert(removed[1] == start[1]);
    assert(removed@ =~= start@);
}

impl Accumulator {
    /// Both perspectives start at the biases.
    pub fn new(model: &Network) -> (a: Accumulator)
        ensures
            forall|p: int, k: int| 0 <= p < 2 && 0 <= k < WIDTH ==> a.hidden[p][k] == model.biases()[k],
    {
        Accumulator { hidden: [model.bias; 2] }
    }

    /// Add (`sign` 1) or remove (`sign` -1) a piece on `sq`, in both perspectives.
    pub fn update(&mut self, piece: Piece, sq: u8, sign: i32, model: &Network)
        requires
            piece.piece_type != PieceType::Empty,
            sq < 64,
            update_fits(old(self).hidden, piece, sq, sign, model.rows()),
        ensures
            updated(old(self).hidden, piece, sq, sign, model.rows(), final(self).hidden),
    {
        let ghost start = self.hidden;
        let mut perspective: usize = 0;
        while perspective < 2
            invariant
                perspective <= 2,
                piece.piece_type != PieceType::Empty,
                sq < 64,
                update_fits(start, piece, sq, sign, model.rows()),
                forall|p: int, k: int|
                    0 <= p < perspective && 0 <= k < WIDTH ==> self.hidden[p][k] == start[p][k] + sign as int
                        * model.rows()[feature(piece, sq, p)][k] as int,
                forall|p: int, k: int| perspective <= p < 2 && 0 <= k < WIDTH ==> self.hidden[p][k] == start[p][k],
            decreases 2 - perspective,
        {
            let f = feature_index(piece, sq, perspective);
            let weights = model.weights[f];
            let mut row = self.hidden[perspective];
            let mut k: usize = 0;
            while k < WIDTH
                invariant
                    k <= WIDTH,
                    perspective < 2,
                    f == feature(piece, sq, perspective as int),
                    f < FEATURES,
                    weights == model.weights[f as int],
                    update_fits(start, piece, sq, sign, model.rows()),
                    forall|j: int| 0 <= j < k ==> row[j] == start[perspective as int][j] + sign as int * model.rows()[f as int][j] as int,
                    forall|j: int| k <= j < WIDTH ==> row[j] == start[perspective as int][j],
                decreases WIDTH - k,
            {
                assert(i32::MIN <= sign as int * model.rows()[feature(piece, sq, perspective as int)][k as int] as int
                    <= i32::MAX);
                let delta = sign * weights[k] as i32;
                row[k] = row[k] + delta;
                k += 1;
            }
            self.hidden[perspective] = row;
            perspective += 1;
        }
    }

    /// White's residual: the output layer over the clamped difference of the
    /// two perspectives, scaled down by 4096 toward zero.
    pub fn white_residual(&self, model: &Network) -> (r: i32)
        ensures
            r == div_toward_zero(residual_sum(self.hidden, model.outputs(), WIDTH as nat), 4096),
    {
        let mut sum: i64 = 0;
        let mut i: usize = 0;
        while i < WIDTH
            invariant
                i <= WIDTH,
                sum == residual_sum(self.hidden, model.outputs(), i as nat),
                -(i as int) * 8388608 <= sum <= (i as int) * 8388608,
            decreases WIDTH - i,
        {
            let a = clamp_activation(self.hidden[0][i]);
            let b = clamp_activation(self.hidden[1][i]);
            let difference = a - b;
            let out = model.output[i] as i64;
            assert(-8388608 <= difference as int * out as int <= 8388608) by (nonlinear_arith)
                requires
                    -256 <= difference <= 256,
                    -32768 <= out <= 32767,
            ;
            sum = sum + difference as i64 * out;
            i += 1;
        }
        if sum >= 0 {
            (sum / 4096) as i32
        } else {
            -((-sum) / 4096) as i32
        }
    }
}

fn clamp_activation(x: i32) -> (y: i32)
    ensures
        y == activation(x),
        0 <= y <= 256,
{
    if x < 0 {
        0
    } else if x > 256 {
        256
    } else {
        x
    }
}

} // verus!
