//! Cataclysm: the table encoding of search scores, the table size choices and
//! the learned residual.
pub mod learning;
pub mod network;

use vstd::prelude::*;

verus! {

pub const MATE: i32 = 30_000;

/// Scores at or beyond this magnitude are mate scores.
pub const WIN: i32 = 29_800;

/// The table form of a search score `v` found `ply` plies from the root:
/// mate scores are made relative to the stored position, then narrowed to
/// 16 bits as a cast does.
pub open spec fn encoded(v: i32, ply: usize) -> i16 {
    let p = ply as i32;
    (if v >= WIN {
        v + p
    } else if v <= -WIN {
        v - p
    } else {
        v as int
    }) as i16
}

/// The search score of a table value read `ply` plies from the root.
pub open spec fn decoded(v: i16, ply: usize) -> int {
    let p = ply as i32;
    if v >= WIN {
        v - p
    } else if v <= -WIN {
        v + p
    } else {
        v as int
    }
}

pub fn encode(v: i32, ply: usize) -> (e: i16)
    requires
        v >= WIN ==> i32::MIN <= v + (ply as i32) <= i32::MAX,
        v <= -WIN ==> i32::MIN <= v - (ply as i32) <= i32::MAX,
    ensures
        e == encoded(v, ply),
{
    let p = (#[verifier::truncate] (ply as i32));
    let wide = if v >= WIN {
        v + p
    } else if v <= -WIN {
        v - p
    } else {
        v
    };
    (#[verifier::truncate] (wide as i16))
}

pub fn decode(v: i16, ply: usize) -> (d: i32)
    requires
        v >= WIN ==> i32::MIN <= v - (ply as i32) <= i32::MAX,
        v <= -WIN ==> i32::MIN <= v + (ply as i32) <= i32::MAX,
    ensures
        d == decoded(v, ply),
{
    let p = (#[verifier::truncate] (ply as i32));
    let wide = v as i32;
    if wide >= WIN {
        wide - p
    } else if wide <= -WIN {
        wide + p
    } else {
        wide
    }
}

/// A score stored at any distance from the root reads back unchanged at the
/// same distance, as long as the mate score shifted by the distance still
/// fits in 16 bits.
pub proof fn lemma_mate_encoding_round_trip(v: i32, ply: usize)
    requires
        ply <= i32::MAX,
        v >= WIN ==> v + ply <= i16::MAX,
        v <= -WIN ==> v - ply >= i16::MIN,
    ensures
        decoded(encoded(v, ply), ply) == v,
{
    assert(ply as i32 == ply);
}

/// The transposition table sizes on offer.
#[derive(Clone, Copy, Debug, PartialEq, Eq, Structural)]
pub enum HashSize {
    MiB4,
    MiB8,
    MiB16,
    MiB32,
}

impl HashSize {
    /// The size of `mib` mebibytes, when it is one on offer.
    pub fn from_mib(mib: u32) -> (r: Result<HashSize, &'static str>)
        ensures
            r == mib_size(mib),
            r matches Ok(h) ==> h.spec_bytes() == mib * 1024 * 1024,
    {
        if mib == 4 {
            Ok(HashSize::MiB4)
        } else if mib == 8 {
            Ok(HashSize::MiB8)
        } else if mib == 16 {
            Ok(HashSize::MiB16)
        } else if mib == 32 {
            Ok(HashSize::MiB32)
        } else {
            Err("hashMiB must be 4, 8, 16, or 32")
        }
    }

    pub open spec fn spec_bytes(self) -> int {
        match self {
            HashSize::MiB4 => 4194304int,
            HashSize::MiB8 => 8388608int,
            HashSize::MiB16 => 16777216int,
            HashSize::MiB32 => 33554432int,
        }
    }

    /// The size in bytes.
    pub fn bytes(self) -> (b: usize)
        ensures
            b == self.spec_bytes(),
    {
        (match self {
            HashSize::MiB4 => 4,
            HashSize::MiB8 => 8,
            HashSize::MiB16 => 16,
            HashSize::MiB32 => 32,
        }) * 1024 * 1024
    }
}

/// The table size of `mib` mebibytes, or why there is none.
pub open spec fn mib_size(mib: u32) -> Result<HashSize, &'static str> {
    if mib == 4 {
        Ok(HashSize::MiB4)
    } else if mib == 8 {
        Ok(HashSize::MiB8)
    } else if mib == 16 {
        Ok(HashSize::MiB16)
    } else if mib == 32 {
        Ok(HashSize::MiB32)
    } else {
        Err("hashMiB must be 4, 8, 16, or 32")
    }
}

impl TryFrom<u32> for HashSize {
    type Error = &'static str;

    fn try_from(mib: u32) -> (r: Result<HashSize, &'static str>) {
        HashSize::from_mib(mib)
    }
}

impl vstd::std_specs::convert::TryFromSpecImpl<u32> for HashSize {
    open spec fn obeys_try_from_spec() -> bool {
        true
    }

    open spec fn try_from_spec(v: u32) -> Result<HashSize, &'static str> {
        mib_size(v)
    }
}

} // verus!
