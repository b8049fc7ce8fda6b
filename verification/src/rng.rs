//! The entropy pool: a ChaCha20 deterministic random bit generator seeded
//! from a hardware source when there is one, else from clock readings.
use vstd::prelude::*;
use vstd::wrapping::u32_specs::wrapping_add as add32;

verus! {

pub const CHACHA_KEY_SIZE: usize = 32;
pub const CHACHA_BLOCK_SIZE: usize = 64;
pub const CHACHA_ROUNDS: usize = 20;
/// Bytes generated before the entropy estimate starts to fall.
pub const RESEED_INTERVAL_BYTES: u64 = 0x10_0000;

/// `x` rotated left by `n` bits.
pub open spec fn rotl(x: u32, n: u32) -> u32 {
    (x << n) | (x >> ((32 - n) as u32))
}

fn rotate_left(x: u32, n: u32) -> (rotated: u32)
    requires
        0 < n < 32,
    ensures
        rotated == rotl(x, n),
{
    (x << n) | (x >> (32 - n))
}

/// The ChaCha quarter round on words `a`, `b`, `c`, `d` of `s`.
pub open spec fn quarter_round_spec(s: Seq<u32>, a: int, b: int, c: int, d: int) -> Seq<u32> {
    let s1 = s.update(a, add32(s[a], s[b]));
    let s2 = s1.update(d, rotl(s1[d] ^ s1[a], 16));
    let s3 = s2.update(c, add32(s2[c], s2[d]));
    let s4 = s3.update(b, rotl(s3[b] ^ s3[c], 12));
    let s5 = s4.update(a, add32(s4[a], s4[b]));
    let s6 = s5.update(d, rotl(s5[d] ^ s5[a], 8));
    let s7 = s6.update(c, add32(s6[c], s6[d]));
    s7.update(b, rotl(s7[b] ^ s7[c], 7))
}

/// A column round followed by a diagonal round.
pub open spec fn double_round_spec(s: Seq<u32>) -> Seq<u32> {
    let s = quarter_round_spec(s, 0, 4, 8, 12);
    let s = quarter_round_spec(s, 1, 5, 9, 13);
    let s = quarter_round_spec(s, 2, 6, 10, 14);
    let s = quarter_round_spec(s, 3, 7, 11, 15);
    let s = quarter_round_spec(s, 0, 5, 10, 15);
    let s = quarter_round_spec(s, 1, 6, 11, 12);
    let s = quarter_round_spec(s, 2, 7, 8, 13);
    quarter_round_spec(s, 3, 4, 9, 14)
}

pub open spec fn double_rounds(s: Seq<u32>, n: nat) -> Seq<u32>
    decreases n,
{
    if n == 0 {
        s
    } else {
        double_round_spec(double_rounds(s, (n - 1) as nat))
    }
}

/// Byte `k` (little-endian) of `word`.
pub open spec fn word_byte(word: u32, k: int) -> u8 {
    ((word >> ((8 * k) as u32)) & 0xff) as u8
}

/// The 64 output bytes of the block function on `state`.
pub open spec fn block_bytes(state: Seq<u32>) -> Seq<u8> {
    let mixed = double_rounds(state, 10);
    Seq::new(64, |i: int| word_byte(add32(mixed[i / 4], state[i / 4]), i % 4))
}

/// `state` with its 64-bit block counter (words 12 and 13) advanced by one.
pub open spec fn advance_counter(state: Seq<u32>) -> Seq<u32> {
    let low = add32(state[12], 1);
    state.update(12, low).update(13, if low == 0 { add32(state[13], 1) } else { state[13] })
}

/// The 64-bit block counter that words 12 (low) and 13 (high) hold.
pub open spec fn block_counter(state: Seq<u32>) -> int {
    state[13] as int * 0x1_0000_0000 + state[12] as int
}

/// Moving to the next block adds one to the 64-bit block counter, wrapping
/// after 2^64 - 1, and leaves the constants, key and nonce as they were.
pub proof fn lemma_counter_steps_by_one(state: Seq<u32>)
    requires
        state.len() == 16,
    ensures
        advance_counter(state).len() == 16,
        block_counter(advance_counter(state)) == (block_counter(state) + 1) % 0x1_0000_0000_0000_0000,
        forall|k: int| 0 <= k < 16 && k != 12 && k != 13 ==> #[trigger] advance_counter(state)[k] == state[k],
{
    let next = advance_counter(state);
    if state[12] == u32::MAX {
        assert(next[12] == 0);
        if state[13] == u32::MAX {
            assert(next[13] == 0);
            assert(block_counter(state) + 1 == 0x1_0000_0000_0000_0000);
        } else {
            assert(next[13] == state[13] + 1);
        }
    } else {
        assert(next[12] == state[12] + 1);
        assert(next[13] == state[13]);
    }
}

pub open spec fn le_word(bytes: Seq<u8>, at: int) -> u32 {
    (bytes[at] as u32) | ((bytes[at + 1] as u32) << 8u32) | ((bytes[at + 2] as u32) << 16u32) | ((bytes[at + 3] as u32) << 24u32)
}

/// The initial state: "expand 32-byte k", the key, the 64-bit counter and
/// the 64-bit nonce.
pub open spec fn initial_state(key: Seq<u8>, nonce: Seq<u8>, counter: u64) -> Seq<u32> {
    seq![0x6170_7865u32, 0x3320_646eu32, 0x7962_2d32u32, 0x6b20_6574u32,
        le_word(key, 0), le_word(key, 4), le_word(key, 8), le_word(key, 12),
        le_word(key, 16), le_word(key, 20), le_word(key, 24), le_word(key, 28),
        counter as u32, (counter >> 32u64) as u32, le_word(nonce, 0), le_word(nonce, 4)]
}

fn read_word(bytes: &[u8], at: usize) -> (word: u32)
    requires
        at + 4 <= bytes@.len(),
    ensures
        word == le_word(bytes@, at as int),
{
    (bytes[at] as u32) | ((bytes[at + 1] as u32) << 8u32) | ((bytes[at + 2] as u32) << 16u32) | ((bytes[at + 3] as u32) << 24u32)
}

/// The ChaCha20 block function state.
pub struct ChaCha20 {
    state: [u32; 16],
}

impl ChaCha20 {
    pub closed spec fn spec_state(&self) -> Seq<u32> {
        self.state@
    }

    /// A 256-bit key, a 64-bit nonce and a 64-bit block counter.
    pub fn new(key: &[u8; 32], nonce: &[u8; 8], counter: u64) -> (chacha: ChaCha20)
        ensures
            chacha.spec_state() == initial_state(key@, nonce@, counter),
    {
        let state: [u32; 16] = [
            0x6170_7865,
            0x3320_646e,
            0x7962_2d32,
            0x6b20_6574,
            read_word(key, 0),
            read_word(key, 4),
            read_word(key, 8),
            read_word(key, 12),
            read_word(key, 16),
            read_word(key, 20),
            read_word(key, 24),
            read_word(key, 28),
            counter as u32,
            (counter >> 32u64) as u32,
            read_word(nonce, 0),
            read_word(nonce, 4),
        ];
        proof {
            assert(state@ =~= initial_state(key@, nonce@, counter));
        }
        ChaCha20 { state }
    }

    /// Writes the next 64-byte block and advances the block counter.
    pub fn next_block(&mut self, output: &mut [u8; 64])
        ensures
            final(output)@ == block_bytes(old(self).spec_state()),
            final(self).spec_state() == advance_counter(old(self).spec_state()),
    {
        let mut working = self.state;
        let mut round: usize = 0;
        while round < CHACHA_ROUNDS / 2
            invariant
                round <= CHACHA_ROUNDS / 2,
                working@ == double_rounds(self.state@, round as nat),
            decreases CHACHA_ROUNDS / 2 - round,
        {
            double_round(&mut working);
            round = round + 1;
        }
        let ghost mixed = working@;
        let mut i: usize = 0;
        while i < 16
            invariant
                i <= 16,
                mixed == double_rounds(self.state@, 10),
                forall|k: int| 0 <= k < i ==> #[trigger] working@[k] == add32(mixed[k], self.state@[k]),
                forall|k: int| i <= k < 16 ==> #[trigger] working@[k] == mixed[k],
            decreases 16 - i,
        {
            working[i] = working[i].wrapping_add(self.state[i]);
            i = i + 1;
        }
        let mut j: usize = 0;
        while j < 64
            invariant
                j <= 64,
                mixed == double_rounds(self.state@, 10),
                forall|k: int| 0 <= k < 16 ==> #[trigger] working@[k] == add32(mixed[k], self.state@[k]),
                forall|k: int| 0 <= k < j ==> #[trigger] output@[k] == block_bytes(self.state@)[k],
            decreases 64 - j,
        {
            let word = working[j / 4];
            let shift = (8 * (j % 4)) as u32;
            output[j] = ((word >> shift) & 0xff) as u8;
            j = j + 1;
        }
        proof {
            assert(output@ =~= block_bytes(self.state@));
        }
        let ghost before = self.state@;
        self.state[12] = self.state[12].wrapping_add(1);
        if self.state[12] == 0 {
            self.state[13] = self.state[13].wrapping_add(1);
        }
        proof {
            assert(self.state@ =~= advance_counter(before));
        }
    }
}

/// The ChaCha quarter round on words `a`, `b`, `c`, `d`.
pub fn quarter_round(state: &mut [u32; 16], a: usize, b: usize, c: usize, d: usize)
    requires
        a < 16 && b < 16 && c < 16 && d < 16,
    ensures
        final(state)@ == quarter_round_spec(old(state)@, a as int, b as int, c as int, d as int),
{
    state[a] = state[a].wrapping_add(state[b]);
    state[d] = rotate_left(state[d] ^ state[a], 16);
    state[c] = state[c].wrapping_add(state[d]);
    state[b] = rotate_left(state[b] ^ state[c], 12);
    state[a] = state[a].wrapping_add(state[b]);
    state[d] = rotate_left(state[d] ^ state[a], 8);
    state[c] = state[c].wrapping_add(state[d]);
    state[b] = rotate_left(state[b] ^ state[c], 7);
}

fn double_round(state: &mut [u32; 16])
    ensures
        final(state)@ == double_round_spec(old(state)@),
{
    quarter_round(state, 0, 4, 8, 12);
    quarter_round(state, 1, 5, 9, 13);
    quarter_round(state, 2, 6, 10, 14);
    quarter_round(state, 3, 7, 11, 15);
    quarter_round(state, 0, 5, 10, 15);
    quarter_round(state, 1, 6, 11, 12);
    quarter_round(state, 2, 7, 8, 13);
    quarter_round(state, 3, 4, 9, 14);
}

/// The bytes a generator hands out: first what is left in its buffer
/// (`rest`), then block after block from `state`.
pub open spec fn stream(rest: Seq<u8>, state: Seq<u32>, n: nat) -> Seq<u8>
    decreases n, if rest.len() == 0 { 1int } else { 0int },
{
    if n == 0 {
        Seq::empty()
    } else if rest.len() == 0 {
        stream(block_bytes(state), advance_counter(state), n)
    } else {
        let k = if rest.len() < n { rest.len() } else { n };
        rest.take(k as int) + stream(rest.skip(k as int), state, (n - k) as nat)
    }
}

/// The deterministic random bit generator.
pub struct EntropyPool {
    chacha: Option<ChaCha20>,
    buffer: [u8; 64],
    /// How much of `buffer` is used up.
    offset: usize,
    /// Bytes generated since the last seeding.
    generated: u64,
    /// Estimated entropy left, in bits.
    entropy_estimate: usize,
    seeded: bool,
}

/// The seed taken from clock readings when no hardware source seeded the
/// pool: mixes of the counter, the tick count and a stack address.
pub open spec fn fallback_seed_spec(now: u64, ticks: u64, address: u64) -> Seq<u8> {
    let mixed = vstd::wrapping::u64_specs::wrapping_mul(now, 0x9e37_79b9_7f4a_7c15u64)
        ^ vstd::wrapping::u64_specs::wrapping_mul(ticks, 0xbf58_476d_1ce4_e5b9u64);
    let last = vstd::wrapping::u64_specs::wrapping_mul(now, 0x94d0_49bb_1331_11ebu64);
    Seq::new(32, |i: int| if i < 8 {
        ((mixed >> ((8 * i) as u64)) & 0xff) as u8
    } else if i < 16 {
        (((mixed >> 32u64) >> ((8 * (i - 8)) as u64)) & 0xff) as u8
    } else if i < 24 {
        ((address >> ((8 * (i - 16)) as u64)) & 0xff) as u8
    } else {
        ((last >> ((8 * (i - 24)) as u64)) & 0xff) as u8
    })
}

pub fn fallback_seed_bytes(now: u64, ticks: u64, address: u64) -> (seed: [u8; 32])
    ensures
        seed@ == fallback_seed_spec(now, ticks, address),
{
    let mixed = now.wrapping_mul(0x9e37_79b9_7f4a_7c15) ^ ticks.wrapping_mul(0xbf58_476d_1ce4_e5b9);
    let high = mixed >> 32u64;
    let last = now.wrapping_mul(0x94d0_49bb_1331_11eb);
    let mut seed: [u8; 32] = [0; 32];
    let mut i: usize = 0;
    while i < 8
        invariant
            i <= 8,
            mixed == vstd::wrapping::u64_specs::wrapping_mul(now, 0x9e37_79b9_7f4a_7c15u64)
                ^ vstd::wrapping::u64_specs::wrapping_mul(ticks, 0xbf58_476d_1ce4_e5b9u64),
            high == mixed >> 32u64,
            last == vstd::wrapping::u64_specs::wrapping_mul(now, 0x94d0_49bb_1331_11ebu64),
            forall|k: int| 0 <= k < i ==> #[trigger] seed@[k] == fallback_seed_spec(now, ticks, address)[k],
            forall|k: int| 0 <= k < i ==> #[trigger] seed@[8 + k] == fallback_seed_spec(now, ticks, address)[8 + k],
            forall|k: int| 0 <= k < i ==> #[trigger] seed@[16 + k] == fallback_seed_spec(now, ticks, address)[16 + k],
            forall|k: int| 0 <= k < i ==> #[trigger] seed@[24 + k] == fallback_seed_spec(now, ticks, address)[24 + k],
        decreases 8 - i,
    {
        let shift = (8 * i) as u64;
        seed[i] = ((mixed >> shift) & 0xff) as u8;
        seed[8 + i] = ((high >> shift) & 0xff) as u8;
        seed[16 + i] = ((address >> shift) & 0xff) as u8;
        seed[24 + i] = ((last >> shift) & 0xff) as u8;
        i = i + 1;
    }
    proof {
        assert forall|k: int| 0 <= k < 32 implies #[trigger] seed@[k] == fallback_seed_spec(now, ticks, address)[k] by {
            if k >= 8 && k < 16 {
                assert(seed@[8 + (k - 8)] == fallback_seed_spec(now, ticks, address)[8 + (k - 8)]);
            } else if k >= 16 && k < 24 {
                assert(seed@[16 + (k - 16)] == fallback_seed_spec(now, ticks, address)[16 + (k - 16)]);
            } else if k >= 24 {
                assert(seed@[24 + (k - 24)] == fallback_seed_spec(now, ticks, address)[24 + (k - 24)]);
            }
        }
        assert(seed@ =~= fallback_seed_spec(now, ticks, address));
    }
    seed
}

/// The key that `seed` gives: its first 32 bytes, zero-padded.
pub open spec fn seed_key(seed: Seq<u8>) -> Seq<u8> {
    Seq::new(32, |i: int| if i < seed.len() { seed[i] } else { 0u8 })
}

impl EntropyPool {
    pub closed spec fn spec_seeded(&self) -> bool {
        self.seeded
    }

    pub closed spec fn spec_entropy(&self) -> usize {
        self.entropy_estimate
    }

    pub closed spec fn spec_generated(&self) -> u64 {
        self.generated
    }

    /// What the pool hands out next: the unused buffer, then the blocks of
    /// the generator.
    pub closed spec fn spec_rest(&self) -> Seq<u8> {
        self.buffer@.subrange(self.offset as int, 64)
    }

    pub closed spec fn spec_state(&self) -> Seq<u32> {
        self.chacha.unwrap().spec_state()
    }

    pub closed spec fn wf(&self) -> bool {
        &&& self.offset <= CHACHA_BLOCK_SIZE
        &&& self.seeded ==> self.chacha is Some
    }

    /// An unseeded pool.
    pub fn new() -> (pool: EntropyPool)
        ensures
            pool.wf(),
            !pool.spec_seeded(),
            pool.spec_entropy() == 0,
            pool.spec_generated() == 0,
            pool.spec_rest() == Seq::<u8>::empty(),
    {
        EntropyPool { chacha: None, buffer: [0; 64], offset: CHACHA_BLOCK_SIZE, generated: 0, entropy_estimate: 0, seeded: false }
    }

    /// Seeds the generator with the first 32 bytes of `seed` as its key (a
    /// zero nonce, counter 0); the entropy estimate is 8 bits per key byte.
    pub fn seed_from_bytes(&mut self, seed: &[u8])
        ensures
            final(self).wf(),
            final(self).spec_seeded(),
            final(self).spec_rest() == Seq::<u8>::empty(),
            final(self).spec_state() == initial_state(seed_key(seed@), Seq::new(8, |i: int| 0u8), 0),
            final(self).spec_generated() == 0,
            final(self).spec_entropy() == (if seed@.len() < 32 { seed@.len() * 8 } else { 256 }),
    {
        let mut key: [u8; 32] = [0; 32];
        let copy_len = if seed.len() < CHACHA_KEY_SIZE { seed.len() } else { CHACHA_KEY_SIZE };
        let mut i: usize = 0;
        while i < copy_len
            invariant
                i <= copy_len,
                copy_len <= 32,
                copy_len <= seed@.len(),
                copy_len == (if seed@.len() < 32 { seed@.len() as int } else { 32 }),
                forall|k: int| 0 <= k < i ==> #[trigger] key@[k] == seed@[k],
                forall|k: int| i <= k < 32 ==> #[trigger] key@[k] == 0u8,
            decreases copy_len - i,
        {
            key[i] = seed[i];
            i = i + 1;
        }
        proof {
            assert(key@ =~= seed_key(seed@));
        }
        let nonce: [u8; 8] = [0; 8];
        proof {
            assert(nonce@ =~= Seq::new(8, |i: int| 0u8));
        }
        self.chacha = Some(ChaCha20::new(&key, &nonce, 0));
        self.offset = CHACHA_BLOCK_SIZE;
        self.generated = 0;
        let bits = copy_len * 8;
        self.entropy_estimate = if bits < 256 { bits } else { 256 };
        self.seeded = true;
        proof {
            assert(self.spec_rest() =~= Seq::<u8>::empty());
        }
    }

    /// Reseeds from `count` bytes that a hardware source wrote into `seed`;
    /// a source that gave nothing leaves the pool as it was.
    pub fn reseed_from_hardware(&mut self, seed: &[u8], count: usize)
        requires
            count <= seed@.len(),
        ensures
            count == 0 ==> *final(self) == *old(self),
            count > 0 ==> final(self).spec_seeded() && final(self).spec_rest() == Seq::<u8>::empty()
                && final(self).spec_state() == initial_state(seed_key(seed@.take(count as int)), Seq::new(8, |i: int| 0u8), 0)
                && final(self).wf(),
            old(self).wf() ==> final(self).wf(),
    {
        if count > 0 {
            let mut taken: Vec<u8> = Vec::new();
            let mut i: usize = 0;
            while i < count
                invariant
                    i <= count <= seed@.len(),
                    taken@ == seed@.take(i as int),
                decreases count - i,
            {
                taken.push(seed[i]);
                proof {
                    assert(taken@ =~= seed@.take(i + 1));
                }
                i = i + 1;
            }
            self.seed_from_bytes(taken.as_slice());
        }
    }

    /// Seeds from clock readings (no hardware source).
    pub fn fallback_seed(&mut self, now: u64, ticks: u64, address: u64)
        ensures
            final(self).wf(),
            final(self).spec_seeded(),
            final(self).spec_rest() == Seq::<u8>::empty(),
            final(self).spec_state() == initial_state(fallback_seed_spec(now, ticks, address), Seq::new(8, |i: int| 0u8), 0),
            final(self).spec_entropy() == 256,
    {
        let seed = fallback_seed_bytes(now, ticks, address);
        self.seed_from_bytes(&seed);
        proof {
            assert(seed_key(seed@) =~= seed@);
        }
    }

    /// Fills `output` with generator bytes, seeding from the clock readings
    /// first when the pool was never seeded.
    pub fn generate(&mut self, output: &mut [u8], now: u64, ticks: u64, address: u64)
        requires
            old(self).wf(),
        ensures
            final(self).wf(),
            final(self).spec_seeded(),
            final(output)@.len() == old(output)@.len(),
            old(self).spec_seeded() ==> final(output)@ == stream(old(self).spec_rest(), old(self).spec_state(), old(output)@.len()),
            !old(self).spec_seeded() ==> final(output)@ == stream(Seq::empty(),
                initial_state(fallback_seed_spec(now, ticks, address), Seq::new(8, |i: int| 0u8), 0), old(output)@.len()),
    {
        if !self.seeded {
            self.fallback_seed(now, ticks, address);
        }
        let ghost rest0 = self.spec_rest();
        let ghost state0 = self.spec_state();
        let length = output.len();
        let mut written: usize = 0;
        while written < length
            invariant
                self.wf(),
                self.seeded,
                written <= length,
                length == output@.len(),
                stream(rest0, state0, length as nat)
                    == output@.take(written as int) + stream(self.spec_rest(), self.spec_state(), (length - written) as nat),
            decreases length - written, if self.offset >= CHACHA_BLOCK_SIZE { 1int } else { 0int },
        {
            if self.offset >= CHACHA_BLOCK_SIZE {
                let ghost before_rest = self.spec_rest();
                let ghost before_state = self.spec_state();
                match &mut self.chacha {
                    Some(chacha) => chacha.next_block(&mut self.buffer),
                    None => {},
                }
                self.offset = 0;
                proof {
                    assert(before_rest =~= Seq::<u8>::empty());
                    assert(self.spec_rest() =~= self.buffer@);
                }
            } else {
                let available = CHACHA_BLOCK_SIZE - self.offset;
                let remaining = length - written;
                let chunk = if available < remaining { available } else { remaining };
                let ghost before_output = output@;
                let ghost before_rest = self.spec_rest();
                let mut k: usize = 0;
                while k < chunk
                    invariant
                        k <= chunk,
                        chunk <= available,
                        available == CHACHA_BLOCK_SIZE - self.offset,
                        self.offset < CHACHA_BLOCK_SIZE,
                        written + chunk <= length,
                        length == output@.len(),
                        before_output.len() == length,
                        before_rest == self.buffer@.subrange(self.offset as int, 64),
                        forall|t: int| 0 <= t < written ==> #[trigger] output@[t] == before_output[t],
                        forall|t: int| 0 <= t < k ==> #[trigger] output@[written + t] == before_rest[t],
                    decreases chunk - k,
                {
                    output[written + k] = self.buffer[self.offset + k];
                    k = k + 1;
                }
                proof {
                    assert(output@.take(written as int) =~= before_output.take(written as int));
                    let joined = before_output.take(written as int) + before_rest.take(chunk as int);
                    assert forall|t: int| 0 <= t < written + chunk implies #[trigger] output@.take(written + chunk)[t] == joined[t] by {
                        if t >= written {
                            assert(output@[written + (t - written)] == before_rest[t - written]);
                        }
                    }
                    assert(output@.take(written + chunk) =~= before_output.take(written as int) + before_rest.take(chunk as int));
                    assert(before_rest.skip(chunk as int) =~= self.buffer@.subrange(self.offset + chunk, 64));
                }
                self.offset = self.offset + chunk;
                written = written + chunk;
                proof {
                    assert(output@.take(written as int) + stream(self.spec_rest(), self.spec_state(), (length - written) as nat)
                        =~= before_output.take((written - chunk) as int) + (before_rest.take(chunk as int)
                        + stream(before_rest.skip(chunk as int), self.spec_state(), (length - written) as nat)));
                }
            }
        }
        proof {
            assert(output@.take(length as int) =~= output@);
        }
        self.generated = self.generated.wrapping_add(written as u64);
        if self.generated >= RESEED_INTERVAL_BYTES {
            self.entropy_estimate = if self.entropy_estimate >= 8 { self.entropy_estimate - 8 } else { 0 };
        }
    }

    pub fn entropy_available(&self) -> (bits: usize)
        ensures
            bits == self.spec_entropy(),
    {
        self.entropy_estimate
    }
}

/// Fills `buffer` with random bytes from the pool; never fails.
pub fn fill_random(pool: &mut EntropyPool, buffer: &mut [u8], now: u64, ticks: u64, address: u64)
    requires
        old(pool).wf(),
    ensures
        final(pool).wf(),
        final(pool).spec_seeded(),
        final(buffer)@.len() == old(buffer)@.len(),
        old(pool).spec_seeded() ==> final(buffer)@ == stream(old(pool).spec_rest(), old(pool).spec_state(), old(buffer)@.len()),
        !old(pool).spec_seeded() ==> final(buffer)@ == stream(Seq::empty(),
            initial_state(fallback_seed_spec(now, ticks, address), Seq::new(8, |i: int| 0u8), 0), old(buffer)@.len()),
{
    pool.generate(buffer, now, ticks, address);
}

/// `/dev/random`: fills all of `buffer` once the pool is seeded and returns
/// the length.
pub fn fill_random_blocking(pool: &mut EntropyPool, buffer: &mut [u8], now: u64, ticks: u64, address: u64) -> (filled: usize)
    requires
        old(pool).wf(),
    ensures
        final(pool).wf(),
        final(pool).spec_seeded(),
        filled == old(buffer)@.len(),
        final(buffer)@.len() == old(buffer)@.len(),
        old(pool).spec_seeded() ==> final(buffer)@ == stream(old(pool).spec_rest(), old(pool).spec_state(), old(buffer)@.len()),
        !old(pool).spec_seeded() ==> final(buffer)@ == stream(Seq::empty(),
            initial_state(fallback_seed_spec(now, ticks, address), Seq::new(8, |i: int| 0u8), 0), old(buffer)@.len()),
{
    fill_random(pool, buffer, now, ticks, address);
    buffer.len()
}

pub fn entropy_available(pool: &EntropyPool) -> (bits: usize)
    ensures
        bits == pool.spec_entropy(),
{
    pool.entropy_available()
}

/// A hardware source arrived: the pool is reseeded from the `count` bytes it
/// gave.
pub fn register_hardware_source(pool: &mut EntropyPool, seed: &[u8], count: usize)
    requires
        old(pool).wf(),
        count <= seed@.len(),
    ensures
        final(pool).wf(),
        count == 0 ==> *final(pool) == *old(pool),
        count > 0 ==> final(pool).spec_seeded() && final(pool).spec_rest() == Seq::<u8>::empty()
            && final(pool).spec_state() == initial_state(seed_key(seed@.take(count as int)), Seq::new(8, |i: int| 0u8), 0),
{
    pool.reseed_from_hardware(seed, count);
}

} // verus!
