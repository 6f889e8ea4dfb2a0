//! The learning boundary: a separately decoded candidate network.
use vstd::prelude::*;
use super::network::{BYTES, Network};

verus! {

/// A candidate network, never installed into the running search implicitly.
pub struct Evaluator(Network);

impl Evaluator {
    pub closed spec fn view(&self) -> Network {
        self.0
    }

    /// Decode a candidate; the error is the network's, as text.
    pub fn decode(bytes: &[u8]) -> (r: Result<Evaluator, String>)
        ensures
            match r {
                Ok(e) => bytes@.len() == BYTES && e@.encoded_by(bytes@),
                Err(e) => bytes@.len() != BYTES && e@ == "invalid Cataclysm model shape"@,
            },
    {
        match Network::decode(bytes) {
            Ok(n) => Ok(Evaluator(n)),
            Err(e) => Err(e.to_owned()),
        }
    }
}

} // verus!
