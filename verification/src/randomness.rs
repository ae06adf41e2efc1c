//! Genome derivation: an unpredictable seed from an outside source is
//! combined with the caller's account and a per-call counter, and the
//! 16-byte genome is the 128-bit Blake2 digest of that payload.

use vstd::bytes::spec_u64_to_le_bytes;
use vstd::bytes::u64_to_le_bytes;
use vstd::prelude::*;

verus! {

/// A source of fresh, unpredictable, fixed-width seeds. The registry asks
/// it once per genome drawn; callers plug in whatever randomness their
/// environment offers. Nothing is promised of the values, so nothing
/// proved here depends on how an implementation behaves.
pub trait IdentitySource {
    /// Return a fresh 16-byte seed.
    fn fresh_seed(&mut self) -> [u8; 16];
}

/// A deterministic seed source: each seed is the little-endian counter
/// value in the low bytes, and the counter steps by one. Meant for
/// harnesses that need reproducible genomes; it is not unpredictable.
pub struct CounterSeed {
    state: u64,
}

impl CounterSeed {
    /// A source whose first seed holds `start`.
    pub fn new(start: u64) -> (r: CounterSeed) {
        CounterSeed { state: start }
    }
}

impl IdentitySource for CounterSeed {
    fn fresh_seed(&mut self) -> [u8; 16] {
        let low = u64_to_le_bytes(self.state);
        self.state = self.state.wrapping_add(1);
        let mut seed: [u8; 16] = [0u8; 16];
        let mut i: usize = 0;
        while i < 8
            invariant
                i <= 8,
                low@.len() == 8,
                seed.len() == 16,
            decreases 8 - i,
        {
            seed[i] = low[i];
            i = i + 1;
        }
        seed
    }
}

/// The 128-bit Blake2 digest of a byte sequence. The digest is a pure
/// function of the bytes alone; its value is not stated here, only named.
pub uninterp spec fn blake2_128_of(data: Seq<u8>) -> Seq<u8>;

/// Relies on sp_io::hashing::blake2_128: the 128-bit Blake2b digest of
/// the data, a pure function of the bytes alone.
#[verifier::external_body]
fn blake2_128_digest(data: &Vec<u8>) -> (r: [u8; 16])
    ensures
        r@ == blake2_128_of(data@),
{
    sp_io::hashing::blake2_128(data.as_slice())
}

/// The payload a genome is digested from: the seed, then the caller's
/// account, then the per-call counter, both little-endian.
pub open spec fn seed_payload(seed: Seq<u8>, sender: u64, nonce: u64) -> Seq<u8> {
    seed + spec_u64_to_le_bytes(sender) + spec_u64_to_le_bytes(nonce)
}

/// Build the digest payload from a seed, the caller and the counter.
fn encode_seed_payload(seed: &[u8; 16], sender: u64, nonce: u64) -> (r: Vec<u8>)
    ensures
        r@ == seed_payload(seed@, sender, nonce),
{
    let mut payload: Vec<u8> = Vec::new();
    let mut i: usize = 0;
    while i < 16
        invariant
            i <= 16,
            payload@ =~= seed@.take(i as int),
        decreases 16 - i,
    {
        payload.push(seed[i]);
        i = i + 1;
    }
    proof {
        assert(payload@ =~= seed@);
    }
    let mut sender_bytes = u64_to_le_bytes(sender);
    payload.append(&mut sender_bytes);
    let mut nonce_bytes = u64_to_le_bytes(nonce);
    payload.append(&mut nonce_bytes);
    proof {
        assert(payload@ =~= seed_payload(seed@, sender, nonce));
    }
    payload
}

/// The genome drawn for `sender` from a fresh `seed` and the per-call
/// counter `nonce`: the Blake2 digest of their payload.
pub fn derive_genome(seed: &[u8; 16], sender: u64, nonce: u64) -> (r: [u8; 16])
    ensures
        r@ == blake2_128_of(seed_payload(seed@, sender, nonce)),
{
    let payload = encode_seed_payload(seed, sender, nonce);
    blake2_128_digest(&payload)
}

} // verus!
