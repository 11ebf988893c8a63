use vstd::prelude::*;
use rand::RngCore;
use rand::SeedableRng;
use rand_chacha::ChaCha20Rng;
use crate::error::RandomError;

verus! {

#[verifier::external_type_specification]
#[verifier::external_body]
pub struct ExChaCha20Rng(ChaCha20Rng);

#[verifier::external_type_specification]
#[verifier::external_body]
pub struct ExRandError(rand::Error);

/// Word positions of the ChaCha20 stream live in a 68-bit space (a 64-bit
/// block counter over 16-word blocks) and wrap around at its end.
pub const WORD_POS_MODULUS: u128 = 0x1_0000_0000_0000_0000_0;

/// The 32-byte key the generator was seeded with (what `get_seed` reports).
pub uninterp spec fn rng_key(r: ChaCha20Rng) -> Seq<u8>;

/// The 64-bit stream identifier, the nonce (what `get_stream` reports).
pub uninterp spec fn rng_stream(r: ChaCha20Rng) -> u64;

/// The offset into the stream, in 32-bit words (what `get_word_pos` reports).
pub uninterp spec fn rng_word_pos(r: ChaCha20Rng) -> int;

/// The value `next_u64` returns for a key, a stream and a word position:
/// the two keystream words at that position, the first as the low half.
pub uninterp spec fn chacha20_u64(key: Seq<u8>, stream: u64, word_pos: int) -> u64;

/// Relies on `ChaCha20Rng::from_seed`: key set to the seed, stream 0, at the
/// start of the stream.
#[verifier::external_body]
fn chacha_from_seed(key: [u8; 32]) -> (r: ChaCha20Rng)
    ensures
        rng_key(r) == key@,
        rng_stream(r) == 0,
        rng_word_pos(r) == 0,
{
    ChaCha20Rng::from_seed(key)
}

/// Relies on `ChaCha20Rng::set_stream`: replaces the stream identifier and
/// keeps the key and the word position.
#[verifier::external_body]
fn chacha_set_stream(r: &mut ChaCha20Rng, stream: u64)
    ensures
        rng_key(*final(r)) == rng_key(*old(r)),
        rng_stream(*final(r)) == stream,
        rng_word_pos(*final(r)) == rng_word_pos(*old(r)),
{
    r.set_stream(stream)
}

/// Relies on `ChaCha20Rng::next_u64`: consumes two words of the stream.
#[verifier::external_body]
fn chacha_next_u64(r: &mut ChaCha20Rng) -> (v: u64)
    ensures
        v == chacha20_u64(rng_key(*old(r)), rng_stream(*old(r)), rng_word_pos(*old(r))),
        rng_key(*final(r)) == rng_key(*old(r)),
        rng_stream(*final(r)) == rng_stream(*old(r)),
        rng_word_pos(*final(r)) == (rng_word_pos(*old(r)) + 2) % (WORD_POS_MODULUS as int),
{
    r.next_u64()
}

/// Relies on `OsRng::try_fill_bytes` of rand: fills the buffer from the
/// operating system, or reports that it could not.
#[verifier::external_body]
fn os_fill(dest: &mut [u8; 40]) -> (r: Result<(), rand::Error>)
{
    rand::rngs::OsRng.try_fill_bytes(dest)
}

/// What a keystream generator is: its key, its nonce and how far into the
/// stream it has read.
pub struct StreamState {
    pub key: Seq<u8>,
    pub nonce: u64,
    pub word_pos: int,
}

impl StreamState {
    /// The state after `k` draws of 64 bits.
    pub open spec fn advanced(self, k: nat) -> StreamState {
        StreamState {
            key: self.key,
            nonce: self.nonce,
            word_pos: (self.word_pos + 2 * k) % (WORD_POS_MODULUS as int),
        }
    }

    /// The 64-bit value of the `k`-th draw from this state.
    pub open spec fn draw(self, k: nat) -> u64 {
        chacha20_u64(self.key, self.nonce, self.advanced(k).word_pos)
    }

    pub open spec fn wf(self) -> bool {
        &&& self.key.len() == 32
        &&& 0 <= self.word_pos < WORD_POS_MODULUS as int
    }
}

/// Reading one more draw after `k` draws is reading `k + 1` draws, and the
/// first draw from there is the `k`-th draw from the start.
pub proof fn lemma_advance_step(s: StreamState, k: nat)
    requires
        s.wf(),
    ensures
        s.advanced(k).advanced(1) == s.advanced(k + 1),
        s.advanced(k).draw(0) == s.draw(k),
        s.advanced(k).wf(),
        s.advanced(0) == s,
{
    let m = WORD_POS_MODULUS as int;
    vstd::arithmetic::div_mod::lemma_add_mod_noop(s.word_pos + 2 * k, 2, m);
    vstd::arithmetic::div_mod::lemma_small_mod(2, m as nat);
    vstd::arithmetic::div_mod::lemma_small_mod(s.word_pos as nat, m as nat);
    vstd::arithmetic::div_mod::lemma_mod_bound(s.word_pos + 2 * k, m);
    vstd::arithmetic::div_mod::lemma_mod_bound(s.advanced(k).word_pos, m);
    vstd::arithmetic::div_mod::lemma_small_mod(s.advanced(k).word_pos as nat, m as nat);
}

/// A ChaCha20 keystream (20 rounds), seeded with a 256-bit key and a 64-bit
/// nonce, read 64 bits at a time.
pub struct KeystreamGenerator {
    rng: ChaCha20Rng,
}

impl View for KeystreamGenerator {
    type V = StreamState;

    closed spec fn view(&self) -> StreamState {
        StreamState {
            key: rng_key(self.rng),
            nonce: rng_stream(self.rng),
            word_pos: rng_word_pos(self.rng),
        }
    }
}

/// Byte `j` (0 for the lowest) of a 64-bit value.
pub open spec fn le_byte(v: u64, j: int) -> u8 {
    (v >> ((8 * j) as u64)) as u8
}

/// The keystream bytes from state `s` on: each draw gives eight bytes,
/// lowest first.
pub open spec fn stream_byte(s: StreamState, i: int) -> u8 {
    le_byte(s.draw((i / 8) as nat), i % 8)
}

/// `256^k`.
pub open spec fn pow256(k: nat) -> int
    decreases k,
{
    if k == 0 {
        1
    } else {
        256 * pow256((k - 1) as nat)
    }
}

proof fn lemma_pow256_bound(k: nat)
    requires
        k <= 8,
    ensures
        1 <= pow256(k) <= 0x1_0000_0000_0000_0000,
        k <= 7 ==> pow256(k) <= 0x100_0000_0000_0000,
    decreases k,
{
    reveal_with_fuel(pow256, 9);
}

/// Bytes read as an unsigned integer, lowest byte first.
pub open spec fn le_value(b: Seq<u8>) -> int
    decreases b.len(),
{
    if b.len() == 0 {
        0
    } else {
        b[0] as int + 256 * le_value(b.subrange(1, b.len() as int))
    }
}

/// The state that 40 seed bytes give: key from the first 32, nonce from the
/// last 8 (little-endian), at the start of the stream.
pub open spec fn seeded_state(seed: Seq<u8>) -> StreamState {
    StreamState { key: seed.take(32), nonce: le_value(seed.subrange(32, 40)) as u64, word_pos: 0 }
}

impl KeystreamGenerator {
    /// A generator with the given key and nonce, at the start of its stream.
    pub fn from_key_nonce(key: [u8; 32], nonce: u64) -> (g: KeystreamGenerator)
        ensures
            g@ == (StreamState { key: key@, nonce, word_pos: 0 }),
            g@.wf(),
    {
        let mut rng = chacha_from_seed(key);
        chacha_set_stream(&mut rng, nonce);
        KeystreamGenerator { rng }
    }

    /// The generator that 40 seed bytes describe: the first 32 are the key,
    /// the last 8 the nonce, read little-endian.
    pub fn from_seed_bytes(seed: &[u8; 40]) -> (g: KeystreamGenerator)
        ensures
            g@ == seeded_state(seed@),
            g@.wf(),
    {
        let mut key = [0u8; 32];
        let mut i: usize = 0;
        while i < 32
            invariant
                i <= 32,
                forall|k: int| 0 <= k < i ==> key@[k] == seed@[k],
            decreases 32 - i,
        {
            key[i] = seed[i];
            i = i + 1;
        }
        assert(key@ =~= seed@.take(32));
        let mut nonce: u64 = 0;
        let mut j: usize = 40;
        proof {
            lemma_pow256_bound(0);
        }
        while j > 32
            invariant
                32 <= j <= 40,
                nonce as int == le_value(seed@.subrange(j as int, 40)),
                (nonce as int) < pow256((40 - j) as nat),
            decreases j,
        {
            j = j - 1;
            let ghost k = (39 - j) as nat;
            proof {
                lemma_pow256_bound(k);
                let b = seed@.subrange(j as int, 40);
                assert(b.subrange(1, b.len() as int) =~= seed@.subrange(j + 1, 40));
                let p = pow256(k);
                let x = nonce as int;
                let y = seed@[j as int] as int;
                assert(x * 256 + y < p * 256 && p * 256 <= 0x1_0000_0000_0000_0000) by (nonlinear_arith)
                    requires x < p, 0 <= y < 256, p <= 0x100_0000_0000_0000;
            }
            nonce = nonce * 256 + seed[j] as u64;
        }
        KeystreamGenerator::from_key_nonce(key, nonce)
    }

    /// Turns what the entropy read gave into a generator: a failed read is
    /// `EntropyUnavailable`, a successful one seeds the generator with the
    /// bytes read.
    pub fn from_entropy_read(read: Result<(), rand::Error>, seed: &[u8; 40]) -> (r: Result<KeystreamGenerator, RandomError>)
        ensures
            read is Err ==> r == Err::<KeystreamGenerator, RandomError>(RandomError::EntropyUnavailable),
            read is Ok ==> (r matches Ok(g) && g@ == seeded_state(seed@)),
    {
        match read {
            Ok(()) => Ok(KeystreamGenerator::from_seed_bytes(seed)),
            Err(_) => Err(RandomError::EntropyUnavailable),
        }
    }

    /// A generator whose key and nonce are fresh bytes from the operating
    /// system's entropy source; `EntropyUnavailable` if they cannot be read.
    pub fn from_entropy() -> (r: Result<KeystreamGenerator, RandomError>)
        ensures
            match r {
                Ok(g) => g@.wf() && exists|seed: Seq<u8>| seed.len() == 40 && g@ == seeded_state(seed),
                Err(e) => e == RandomError::EntropyUnavailable,
            },
    {
        let mut seed = [0u8; 40];
        let read = os_fill(&mut seed);
        let r = KeystreamGenerator::from_entropy_read(read, &seed);
        proof {
            if r is Ok {
                assert(seed@.len() == 40);
            }
        }
        r
    }

    /// The next 64 bits of the keystream.
    pub fn next_u64(&mut self) -> (v: u64)
        requires
            old(self)@.wf(),
        ensures
            final(self)@.wf(),
            v == old(self)@.draw(0),
            final(self)@ == old(self)@.advanced(1),
    {
        chacha_next_u64(&mut self.rng)
    }

    /// Overwrites every byte of `dest` with the next keystream bytes. The
    /// generator is read in whole 64-bit draws (as the underlying ChaCha20Rng
    /// reads whole words), so the unused rest of the last draw is discarded
    /// and the next read starts at a draw boundary.
    pub fn fill(&mut self, dest: &mut Vec<u8>)
        requires
            old(self)@.wf(),
        ensures
            final(self)@.wf(),
            final(dest)@.len() == old(dest)@.len(),
            forall|i: int| 0 <= i < old(dest)@.len() ==> #[trigger] final(dest)@[i] == stream_byte(old(self)@, i),
            final(self)@ == old(self)@.advanced(((old(dest)@.len() + 7) / 8) as nat),
    {
        let ghost s0 = self@;
        let n = dest.len();
        let mut i: usize = 0;
        let mut v: u64 = 0;
        proof {
            lemma_advance_step(s0, 0);
        }
        while i < n
            invariant
                s0 == old(self)@,
                s0.wf(),
                n == dest@.len(),
                i <= n,
                self@ == s0.advanced(((i + 7) / 8) as nat),
                i % 8 != 0 ==> v == s0.draw((i / 8) as nat),
                forall|j: int| 0 <= j < i ==> #[trigger] dest@[j] == stream_byte(s0, j),
            decreases n - i,
        {
            if i % 8 == 0 {
                proof {
                    lemma_advance_step(s0, (i / 8) as nat);
                }
                v = self.next_u64();
            }
            let b = (v >> (8 * (i % 8)) as u64) as u8;
            dest.set(i, b);
            i = i + 1;
        }
    }
}

} // verus!
