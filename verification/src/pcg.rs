//! PCG32 (PCG-XSH-RR) random streams: the main simulation stream [`Pcg32`] and the named,
//! independently seeded [`Substream`]s.
//!
//! Both streams advance by the same 64-bit linear congruential step and emit 32-bit outputs by
//! the same xorshift + rotation; only their seeding differs. The whole state is two `u64`s, so a
//! stream is restored exactly from its parts (`from_parts` / `state` / `increment`).
use vstd::prelude::*;
use vstd::string::StringSliceAdditionalSpecFns;

verus! {

/// Multiplier of the 64-bit LCG step.
pub const PCG_MULT: u64 = 6364136223846793005;

/// Increment of the main stream: the fixed sequence number 54, shifted and made odd.
pub const MAIN_INCREMENT: u64 = 109;

/// FNV-1a prime used to hash substream names.
pub const FNV_PRIME: u64 = 0x100000001b3;

/// The abstract state of a PCG32 generator.
pub struct PcgState {
    pub state: u64,
    pub inc: u64,
}

/// One LCG step: `state * MULT + inc (mod 2^64)`.
pub open spec fn lcg_step(state: u64, inc: u64) -> u64 {
    vstd::wrapping::u64_specs::wrapping_add(
        vstd::wrapping::u64_specs::wrapping_mul(state, PCG_MULT),
        inc,
    )
}

/// Rotate a 32-bit word right by `r` (0 <= r < 32).
pub open spec fn rotr32(x: u32, r: u32) -> u32 {
    if r == 0 {
        x
    } else {
        (x >> r) | (x << ((32 - r) as u32))
    }
}

/// The 32-bit output emitted for the state held before a step (XSH-RR).
pub open spec fn pcg_output(old: u64) -> u32 {
    rotr32((((old >> 18u64) ^ old) >> 27u64) as u32, (old >> 59u64) as u32)
}

/// The state after one draw.
pub open spec fn advanced(s: PcgState) -> PcgState {
    PcgState { state: lcg_step(s.state, s.inc), inc: s.inc }
}

/// The reference seeding flow: from state 0 draw once, add the seed, draw once more.
pub open spec fn seeded(seed: u64, inc: u64) -> PcgState {
    PcgState {
        state: lcg_step(vstd::wrapping::u64_specs::wrapping_add(lcg_step(0, inc), seed), inc),
        inc,
    }
}

/// The first `n` outputs of a stream started at `s`.
pub open spec fn draws(s: PcgState, n: nat) -> Seq<u32>
    decreases n,
{
    if n == 0 {
        Seq::empty()
    } else {
        seq![pcg_output(s.state)] + draws(advanced(s), (n - 1) as nat)
    }
}

/// FNV-1a over `bytes`, with the hash register starting at `seed`.
pub open spec fn fnv1a(seed: u64, bytes: Seq<u8>) -> u64
    decreases bytes.len(),
{
    if bytes.len() == 0 {
        seed
    } else {
        vstd::wrapping::u64_specs::wrapping_mul(
            fnv1a(seed, bytes.drop_last()) ^ (bytes.last() as u64),
            FNV_PRIME,
        )
    }
}

/// The increment of the substream named `name` (UTF-8 bytes) in a world seeded with `seed`.
pub open spec fn substream_increment(seed: u64, name: Seq<u8>) -> u64 {
    fnv1a(seed, name) | 1u64
}

/// The 53-bit numerator of the main stream's unit-interval draw, made of two outputs.
pub open spec fn mantissa53(hi: u32, lo: u32) -> u64 {
    ((hi as u64) << 21u64) | ((lo as u64) >> 11u64)
}

fn rotate_right32(x: u32, r: u32) -> (y: u32)
    requires
        r < 32,
    ensures
        y == rotr32(x, r),
{
    if r == 0 {
        x
    } else {
        (x >> r) | (x << (32 - r))
    }
}

/// One XSH-RR draw on `(state, inc)`: returns the output and the next state.
fn pcg_draw(state: u64, inc: u64) -> (res: (u32, u64))
    ensures
        res.0 == pcg_output(state),
        res.1 == lcg_step(state, inc),
{
    let next = state.wrapping_mul(PCG_MULT).wrapping_add(inc);
    let xorshifted = (((state >> 18u64) ^ state) >> 27u64) as u32;
    let rot = (state >> 59u64) as u32;
    assert((state >> 59u64) < 32) by (bit_vector);
    (rotate_right32(xorshifted, rot), next)
}

/// PCG32 main stream (sequence number fixed at 54).
#[derive(Debug, PartialEq, Eq)]
pub struct Pcg32 {
    state: u64,
    inc: u64,
}

impl View for Pcg32 {
    type V = PcgState;

    closed spec fn view(&self) -> PcgState {
        PcgState { state: self.state, inc: self.inc }
    }
}

impl Pcg32 {
    /// Seed the main stream: `seeded(seed, 109)`.
    pub fn new(seed: u64) -> (rng: Pcg32)
        ensures
            rng@ == seeded(seed, MAIN_INCREMENT),
            rng@.inc % 2 == 1,
    {
        let mut rng = Pcg32 { state: 0, inc: MAIN_INCREMENT };
        rng.next_u32();
        rng.state = rng.state.wrapping_add(seed);
        rng.next_u32();
        rng
    }

    /// Rebuild a generator from its two state words (the inverse of `state`/`increment`).
    pub fn from_parts(state: u64, inc: u64) -> (rng: Pcg32)
        ensures
            rng@ == (PcgState { state, inc }),
    {
        Pcg32 { state, inc }
    }

    /// The current LCG state word.
    pub fn state(&self) -> (s: u64)
        ensures
            s == self@.state,
    {
        self.state
    }

    /// The (odd, for seeded streams) increment word.
    pub fn increment(&self) -> (i: u64)
        ensures
            i == self@.inc,
    {
        self.inc
    }

    /// Next 32-bit output; the stream advances by one LCG step.
    pub fn next_u32(&mut self) -> (r: u32)
        ensures
            r == pcg_output(old(self)@.state),
            final(self)@ == advanced(old(self)@),
    {
        let (out, next) = pcg_draw(self.state, self.inc);
        self.state = next;
        out
    }

    /// The 53-bit numerator `n` of the next unit-interval draw `n / 2^53` (two outputs: the
    /// high one supplies the top 32 bits, the low one its top 21 bits).
    pub fn next_mantissa53(&mut self) -> (n: u64)
        ensures
            n == mantissa53(pcg_output(old(self)@.state), pcg_output(advanced(old(self)@).state)),
            n < 0x20_0000_0000_0000u64,
            final(self)@ == advanced(advanced(old(self)@)),
    {
        let hi = self.next_u32() as u64;
        let lo = self.next_u32() as u64;
        let n = (hi << 21u64) | (lo >> 11u64);
        assert(hi < 0x1_0000_0000u64 ==> (hi << 21u64) | (lo >> 11u64) < 0x20_0000_0000_0000u64)
            by (bit_vector);
        n
    }

    /// A draw in the closed interval `[min, max]`: `min + next_u32 % (max - min + 1)`.
    pub fn range_i64(&mut self, min: i64, max: i64) -> (r: i64)
        requires
            min <= max,
            max - min < i64::MAX,
        ensures
            r == min + (pcg_output(old(self)@.state) as int) % (max - min + 1),
            min <= r <= max,
            final(self)@ == advanced(old(self)@),
    {
        let span = (max - min + 1) as u64;
        let x = self.next_u32() as u64;
        let off = x % span;
        min + off as i64
    }
}

/// A named deterministic substream: seeded by `(world_seed, name)` only, so it yields the same
/// sequence whenever it is first touched.
#[derive(Debug, PartialEq, Eq)]
pub struct Substream {
    state: u64,
    increment: u64,
}

impl View for Substream {
    type V = PcgState;

    closed spec fn view(&self) -> PcgState {
        PcgState { state: self.state, inc: self.increment }
    }
}

impl Substream {
    /// Hash `name` (FNV-1a over its UTF-8 bytes, register seeded with `world_seed`) into an odd
    /// increment, then run the PCG32 seeding flow with `world_seed` as the seed.
    pub fn new(world_seed: u64, name: &str) -> (s: Substream)
        ensures
            s@ == seeded(world_seed, substream_increment(world_seed, name.spec_bytes())),
            s@.inc % 2 == 1,
    {
        let bytes = name.as_bytes();
        let mut hash = world_seed;
        let mut i: usize = 0;
        while i < bytes.len()
            invariant
                i <= bytes@.len(),
                bytes@ == name.spec_bytes(),
                hash == fnv1a(world_seed, bytes@.subrange(0, i as int)),
            decreases bytes@.len() - i,
        {
            let b = bytes[i];
            hash = (hash ^ b as u64).wrapping_mul(FNV_PRIME);
            assert(bytes@.subrange(0, i + 1).drop_last() =~= bytes@.subrange(0, i as int));
            i += 1;
        }
        assert(bytes@.subrange(0, bytes@.len() as int) =~= bytes@);
        let increment = hash | 1u64;
        assert((hash | 1u64) % 2 == 1) by (bit_vector);
        let mut s = Substream { state: 0, increment };
        s.next_u32();
        s.state = s.state.wrapping_add(world_seed);
        s.next_u32();
        s
    }

    /// Rebuild a substream from its two state words.
    pub fn from_parts(state: u64, increment: u64) -> (s: Substream)
        ensures
            s@ == (PcgState { state, inc: increment }),
    {
        Substream { state, increment }
    }

    pub fn state(&self) -> (s: u64)
        ensures
            s == self@.state,
    {
        self.state
    }

    pub fn increment(&self) -> (i: u64)
        ensures
            i == self@.inc,
    {
        self.increment
    }

    /// Next 32-bit output (same XSH-RR step as [`Pcg32::next_u32`]).
    pub fn next_u32(&mut self) -> (r: u32)
        ensures
            r == pcg_output(old(self)@.state),
            final(self)@ == advanced(old(self)@),
    {
        let (out, next) = pcg_draw(self.state, self.increment);
        self.state = next;
        out
    }
}

/// A stream's future is a function of its two state words alone: two generators with equal
/// state produce equal draws — which is why a snapshot of `(state, inc)` resumes exactly.
pub proof fn lemma_equal_state_equal_draws(a: PcgState, b: PcgState, n: nat)
    requires
        a == b,
    ensures
        draws(a, n) == draws(b, n),
{
}

/// Drawing once and then `n` more is the same as drawing `n + 1` from the start: the outputs
/// of successive `next_u32` calls are exactly `draws`.
pub proof fn lemma_draws_step(s: PcgState, n: nat)
    ensures
        draws(s, n + 1) == seq![pcg_output(s.state)] + draws(advanced(s), n),
        draws(s, n + 1)[0] == pcg_output(s.state),
{
    assert(draws(s, n + 1) == seq![pcg_output(s.state)] + draws(advanced(s), n));
}

/// Drawing never changes the increment, so a stream seeded with an odd increment stays a
/// full-period PCG stream forever.
pub proof fn lemma_increment_preserved(s: PcgState, n: nat)
    ensures
        advance_n(s, n).inc == s.inc,
    decreases n,
{
    if n > 0 {
        lemma_increment_preserved(advanced(s), (n - 1) as nat);
    }
}

/// The state after `n` draws.
pub open spec fn advance_n(s: PcgState, n: nat) -> PcgState
    decreases n,
{
    if n == 0 {
        s
    } else {
        advance_n(advanced(s), (n - 1) as nat)
    }
}

/// Every seeded substream has an odd increment, whatever its seed and name.
pub proof fn lemma_substream_increment_odd(seed: u64, name: Seq<u8>)
    ensures
        substream_increment(seed, name) % 2 == 1,
{
    let h = fnv1a(seed, name);
    assert((h | 1u64) % 2 == 1) by (bit_vector);
}

/// One LCG step loses nothing: two states that step (with one increment) to the same state
/// are the same state.
pub proof fn lemma_lcg_step_injective(a: u64, b: u64, inc: u64)
    requires
        lcg_step(a, inc) == lcg_step(b, inc),
    ensures
        a == b,
{
    // 13877824140714322085 is the inverse of PCG_MULT modulo 2^64.
    let x = vstd::wrapping::u64_specs::wrapping_mul(a, PCG_MULT);
    let y = vstd::wrapping::u64_specs::wrapping_mul(b, PCG_MULT);
    assert(x == y);
    assert(x == ((a as u128) * 6364136223846793005u128) as u64) by (bit_vector)
        requires x == vstd::wrapping::u64_specs::wrapping_mul(a, 6364136223846793005u64);
    assert(y == ((b as u128) * 6364136223846793005u128) as u64) by (bit_vector)
        requires y == vstd::wrapping::u64_specs::wrapping_mul(b, 6364136223846793005u64);
    assert(((x as u128) * 13877824140714322085u128) as u64 == a) by (bit_vector)
        requires x == ((a as u128) * 6364136223846793005u128) as u64;
    assert(((y as u128) * 13877824140714322085u128) as u64 == b) by (bit_vector)
        requires y == ((b as u128) * 6364136223846793005u128) as u64;
}

/// Seeding loses nothing: the main stream seeded with two seeds starts in the same state
/// exactly when the seeds are equal (so distinct seeds give distinct generators).
pub proof fn lemma_distinct_seeds_distinct_generators(s1: u64, s2: u64)
    ensures
        seeded(s1, MAIN_INCREMENT) == seeded(s2, MAIN_INCREMENT) <==> s1 == s2,
{
    lemma_seeding_one_to_one(s1, MAIN_INCREMENT, s2, MAIN_INCREMENT);
}

/// Seeding is one-to-one in the seed and the increment together: two seeded generators are the
/// same exactly when both were seeded with the same seed and the same increment.
pub proof fn lemma_seeding_one_to_one(s1: u64, i1: u64, s2: u64, i2: u64)
    ensures
        seeded(s1, i1) == seeded(s2, i2) <==> (s1 == s2 && i1 == i2),
{
    if seeded(s1, i1) == seeded(s2, i2) {
        let c = lcg_step(0, i1);
        lemma_lcg_step_injective(
            vstd::wrapping::u64_specs::wrapping_add(c, s1),
            vstd::wrapping::u64_specs::wrapping_add(c, s2),
            i1,
        );
    }
}

/// Substreams of two worlds with different seeds differ, whatever their names: a world's seed
/// enters every substream's state.
pub proof fn lemma_distinct_worlds_distinct_substreams(w1: u64, n1: Seq<u8>, w2: u64, n2: Seq<u8>)
    requires
        w1 != w2,
    ensures
        seeded(w1, substream_increment(w1, n1)) != seeded(w2, substream_increment(w2, n2)),
{
    lemma_seeding_one_to_one(w1, substream_increment(w1, n1), w2, substream_increment(w2, n2));
}

} // verus!
