//! The candidate's residual network, read and evaluated as the control's is.
use vstd::prelude::*;
use crate::engines::cataclysm::network::{
    BYTES, FEATURES, WIDTH, activation, div_toward_zero, encodes, feature, fnv, le_word, residual_sum, update_fits, updated,
};
use crate::rules::types::{Piece, PieceType};

verus! {

pub struct Network {
    weights: [[i16; WIDTH]; FEATURES],
    bias: [i32; WIDTH],
    output: [i16; WIDTH],
    pub fingerprint: u64,
}

impl Network {
    /// The feature weight rows.
    pub closed spec fn rows(&self) -> Seq<[i16; WIDTH]> {
        self.weights@
    }

    pub closed spec fn biases(&self) -> Seq<i32> {
        self.bias@
    }

    pub closed spec fn outputs(&self) -> Seq<i16> {
        self.output@
    }

    pub closed spec fn hash(&self) -> u64 {
        self.fingerprint
    }

    /// The network's fingerprint.
    pub fn fingerprint(&self) -> (h: u64)
        ensures
            h == self.hash(),
    {
        self.fingerprint
    }

    /// Each bias fits in sixteen bits, as those of a decoded network do.
    pub open spec fn sound(&self) -> bool {
        forall|k: int| 0 <= k < WIDTH ==> -32768 <= #[trigger] self.biases()[k] <= 32767
    }

    /// A network has 768 weight rows and 32 biases and output weights.
    pub proof fn lemma_shape(&self)
        ensures
            self.rows().len() == FEATURES,
            self.biases().len() == WIDTH,
            self.outputs().len() == WIDTH,
    {
    }

    /// A decoded network is sound.
    pub proof fn lemma_decoded_sound(&self, bytes: Seq<u8>)
        requires
            self.encoded_by(bytes),
        ensures
            self.sound(),
    {
    }

    /// The network the words of `bytes` encode; its fingerprint is the FNV-1a
    /// hash of the bytes.
    pub closed spec fn encoded_by(&self, bytes: Seq<u8>) -> bool {
        &&& encodes(self.rows(), self.biases(), self.outputs(), bytes)
        &&& self.fingerprint == fnv(bytes, bytes.len())
    }

    /// What a network encoded by `bytes` holds: its weight rows, biases and
    /// output weights are the words of the bytes, and its fingerprint is the
    /// FNV-1a hash of the bytes.
    pub proof fn lemma_encoded_by(&self, bytes: Seq<u8>)
        requires
            self.encoded_by(bytes),
        ensures
            encodes(self.rows(), self.biases(), self.outputs(), bytes),
            self.hash() == fnv(bytes, bytes.len()),
    {
    }

    /// Decode a network; the input must be exactly the encoded size.
    pub fn decode(bytes: &[u8]) -> (r: Result<Network, &'static str>)
        ensures
            match r {
                Ok(n) => bytes@.len() == BYTES && n.encoded_by(bytes@),
                Err(e) => bytes@.len() != BYTES && e == "invalid Cataclysm model shape",
            },
    {
        if bytes.len() != BYTES {
            return Err("invalid Cataclysm model shape");
        }
        let mut weights = [[0i16; WIDTH]; FEATURES];
        let mut f: usize = 0;
        while f < FEATURES
            invariant
                bytes@.len() == BYTES,
                f <= FEATURES,
                forall|g: int, k: int| 0 <= g < f && 0 <= k < WIDTH ==> #[trigger] weights[g][k] == le_word(bytes@, g * 32 + k),
            decreases FEATURES - f,
        {
            let mut row = [0i16; WIDTH];
            let mut k: usize = 0;
            while k < WIDTH
                invariant
                    bytes@.len() == BYTES,
                    f < FEATURES,
                    k <= WIDTH,
                    forall|j: int| 0 <= j < k ==> #[trigger] row[j] == le_word(bytes@, f * 32 + j),
                decreases WIDTH - k,
            {
                row[k] = word_at(bytes, f * 32 + k);
                k += 1;
            }
            weights[f] = row;
            f += 1;
        }
        let mut bias = [0i32; WIDTH];
        let mut output = [0i16; WIDTH];
        let mut k: usize = 0;
        while k < WIDTH
            invariant
                bytes@.len() == BYTES,
                k <= WIDTH,
                forall|j: int| 0 <= j < k ==> #[trigger] bias[j] == le_word(bytes@, 24576 + j) as i32,
                forall|j: int| 0 <= j < k ==> #[trigger] output[j] == le_word(bytes@, 24608 + j),
            decreases WIDTH - k,
        {
            bias[k] = word_at(bytes, 24576 + k) as i32;
            output[k] = word_at(bytes, 24608 + k);
            k += 1;
        }
        let mut h: u64 = 0xcbf29ce484222325;
        let mut i: usize = 0;
        while i < bytes.len()
            invariant
                i <= bytes@.len(),
                h == fnv(bytes@, i as nat),
            decreases bytes@.len() - i,
        {
            h = (h ^ bytes[i] as u64).wrapping_mul(0x100000001b3);
            i += 1;
        }
        let n = Network { weights, bias, output, fingerprint: h };
        assert(n.rows() =~= weights@);
        Ok(n)
    }
}

/// The `k`-th little-endian 16-bit word, as `i16::from_le_bytes` reads it.
fn word_at(bytes: &[u8], k: usize) -> (w: i16)
    requires
        bytes@.len() == BYTES,
        k < 24640,
    ensures
        w == le_word(bytes@, k as int),
{
    let lo = bytes[2 * k] as u32;
    let hi = bytes[2 * k + 1] as u32;
    (#[verifier::truncate] ((lo + 256 * hi) as i16))
}

/// The two perspectives' hidden sums: White's first, then Black's.
#[derive(Clone, Copy, PartialEq, Eq, Debug)]
pub struct Accumulator {
    pub hidden: [[i32; WIDTH]; 2],
}

impl Accumulator {
    /// Both perspectives start at the biases.
    pub fn new(model: &Network) -> (a: Accumulator)
        ensures
            forall|p: int, k: int| 0 <= p < 2 && 0 <= k < WIDTH ==> a.hidden[p][k] == model.biases()[k],
    {
        Accumulator { hidden: [model.bias; 2] }
    }

    /// Add (`sign` 1) or remove (`sign` -1) a piece on `sq`, in both perspectives.
    pub fn update(&mut self, piece: Piece, sq: u8, sign: i32, model: &Network)
        requires
            piece.piece_type != PieceType::Empty,
            sq < 64,
            update_fits(old(self).hidden, piece, sq, sign, model.rows()),
        ensures
            updated(old(self).hidden, piece, sq, sign, model.rows(), final(self).hidden),
    {
        let ghost start = self.hidden;
        let pt = piece.piece_type.index() - 1;
        let mut perspective: usize = 0;
        while perspective < 2
            invariant
                perspective <= 2,
                pt == piece.piece_type.spec_index() - 1,
                piece.piece_type != PieceType::Empty,
                sq < 64,
                update_fits(start, piece, sq, sign, model.rows()),
                forall|p: int, k: int|
                    0 <= p < perspective && 0 <= k < WIDTH ==> self.hidden[p][k] == start[p][k] + sign as int
                        * model.rows()[feature(piece, sq, p)][k] as int,
                forall|p: int, k: int| perspective <= p < 2 && 0 <= k < WIDTH ==> self.hidden[p][k] == start[p][k],
            decreases 2 - perspective,
        {
            let color = if perspective == 0 {
                piece.color.index()
            } else {
                1 - piece.color.index()
            };
            let square = if perspective == 0 {
                sq
            } else {
                sq ^ 56
            };
            assert(sq < 64 ==> (sq ^ 56u8) < 64) by (bit_vector);
            let f = (color * 6 + pt) * 64 + square as usize;
            assert(f == feature(piece, sq, perspective as int));
            let weights = model.weights[f];
            let mut row = self.hidden[perspective];
            let mut k: usize = 0;
            while k < WIDTH
                invariant
                    k <= WIDTH,
                    perspective < 2,
                    f == feature(piece, sq, perspective as int),
                    f < FEATURES,
                    weights == model.rows()[f as int],
                    update_fits(start, piece, sq, sign, model.rows()),
                    forall|j: int| 0 <= j < k ==> row[j] == start[perspective as int][j] + sign as int * model.rows()[f as int][j] as int,
                    forall|j: int| k <= j < WIDTH ==> row[j] == start[perspective as int][j],
                decreases WIDTH - k,
            {
                assert(i32::MIN <= sign as int * model.rows()[feature(piece, sq, perspective as int)][k as int] as int
                    <= i32::MAX);
                let delta = sign * weights[k] as i32;
                row[k] = row[k] + delta;
                k += 1;
            }
            self.hidden[perspective] = row;
            perspective += 1;
        }
    }

    /// White's residual: the output layer over the clamped difference of the
    /// two perspectives, scaled down by 4096 toward zero.
    pub fn white_residual(&self, model: &Network) -> (r: i32)
        ensures
            r == div_toward_zero(residual_sum(self.hidden, model.outputs(), WIDTH as nat), 4096),
            -65536 <= r <= 65536,
    {
        let mut sum: i64 = 0;
        let mut i: usize = 0;
        while i < WIDTH
            invariant
                i <= WIDTH,
                sum == residual_sum(self.hidden, model.outputs(), i as nat),
                -(i as int) * 8388608 <= sum <= (i as int) * 8388608,
            decreases WIDTH - i,
        {
            let h0 = self.hidden[0][i];
            let h1 = self.hidden[1][i];
            let a: i32 = if h0 < 0 {
                0
            } else if h0 > 256 {
                256
            } else {
                h0
            };
            let b: i32 = if h1 < 0 {
                0
            } else if h1 > 256 {
                256
            } else {
                h1
            };
            assert(a == activation(h0) && b == activation(h1));
            let difference = a - b;
            let out = model.output[i] as i64;
            assert(-8388608 <= difference as int * out as int <= 8388608) by (nonlinear_arith)
                requires
                    -256 <= difference <= 256,
                    -32768 <= out <= 32767,
            ;
            sum = sum + difference as i64 * out;
            i += 1;
        }
        if sum >= 0 {
            (sum / 4096) as i32
        } else {
            -((-sum) / 4096) as i32
        }
    }
}

} // verus!
