//! The sampler's integer random streams: SplitMix64 (seed expansion) and
//! xoshiro256** (the core uniform generator).

use vstd::prelude::*;

verus! {

/// `x + y` modulo 2^64.
pub open spec fn wadd(x: u64, y: u64) -> u64 {
    ((x as nat + y as nat) % 0x1_0000_0000_0000_0000) as u64
}

/// `x * y` modulo 2^64.
pub open spec fn wmul(x: u64, y: u64) -> u64 {
    ((x as nat * y as nat) % 0x1_0000_0000_0000_0000) as u64
}

/// `x` rotated left by `k` bits (`0 < k < 64`).
pub open spec fn rotl(x: u64, k: u64) -> u64 {
    (x << k) | (x >> (64 - k))
}

/// The SplitMix64 increment.
pub const GOLDEN_GAMMA: u64 = 0x9E37_79B9_7F4A_7C15;

/// One SplitMix64 step from `state`: the new state and the output.
pub open spec fn splitmix_step(state: u64) -> (u64, u64) {
    let s = wadd(state, GOLDEN_GAMMA);
    let z1 = wmul(s ^ (s >> 30), 0xBF58_476D_1CE4_E5B9);
    let z2 = wmul(z1 ^ (z1 >> 27), 0x94D0_49BB_1331_11EB);
    (s, z2 ^ (z2 >> 31))
}

/// SplitMix64 seed expander and uniform stream.
pub struct SplitMix64 {
    state: u64,
}

impl View for SplitMix64 {
    type V = u64;

    closed spec fn view(&self) -> u64 {
        self.state
    }
}

fn wrapping_add_u64(x: u64, y: u64) -> (r: u64)
    ensures
        r == wadd(x, y),
{
    x.wrapping_add(y)
}

fn wrapping_mul_u64(x: u64, y: u64) -> (r: u64)
    ensures
        r == wmul(x, y),
{
    x.wrapping_mul(y)
}

fn rotate_left_u64(x: u64, k: u64) -> (r: u64)
    requires
        0 < k < 64,
    ensures
        r == rotl(x, k),
{
    (x << k) | (x >> (64 - k))
}

impl SplitMix64 {
    /// A stream starting from `seed`.
    pub fn new(seed: u64) -> (r: SplitMix64)
        ensures
            r@ == seed,
    {
        SplitMix64 { state: seed }
    }

    /// Advance the stream and return its next output.
    pub fn next_u64(&mut self) -> (r: u64)
        ensures
            (final(self)@, r) == splitmix_step(old(self)@),
    {
        self.state = wrapping_add_u64(self.state, GOLDEN_GAMMA);
        let mut z = self.state;
        z = wrapping_mul_u64(z ^ (z >> 30), 0xBF58_476D_1CE4_E5B9);
        z = wrapping_mul_u64(z ^ (z >> 27), 0x94D0_49BB_1331_11EB);
        z ^ (z >> 31)
    }
}

/// The four state words of xoshiro256**.
pub type XoshiroState = (u64, u64, u64, u64);

/// One xoshiro256** step from state `s`: the new state and the output.
pub open spec fn xoshiro_step(s: XoshiroState) -> (XoshiroState, u64) {
    let (s0, s1, s2, s3) = s;
    let result = wmul(rotl(wmul(s1, 5), 7), 9);
    let t = s1 << 17;
    let n2 = s2 ^ s0;
    let n3 = s3 ^ s1;
    let n1 = s1 ^ n2;
    let n0 = s0 ^ n3;
    ((n0, n1, n2 ^ t, rotl(n3, 45)), result)
}


/// One xoshiro256** step in terms of the old state words: word 0 becomes
/// `s0 ^ s3 ^ s1`, word 1 `s1 ^ s2 ^ s0`, word 2 `s2 ^ s0 ^ (s1 << 17)`, and
/// word 3 is `s3 ^ s1` turned left by 45 bits (so turning it back right by
/// 45 bits gives `s3 ^ s1`); the output is `s1 * 5` turned left by 7 bits,
/// times 9, and depends on word 1 alone.
pub proof fn lemma_xoshiro_step_words(s: XoshiroState, u: XoshiroState)
    ensures
        ({
            let (n, out) = xoshiro_step(s);
            let (s0, s1, s2, s3) = s;
            let x = s3 ^ s1;
            let m = ((s1 as nat * 5) % 0x1_0000_0000_0000_0000) as u64;
            &&& n.0 == s0 ^ s3 ^ s1
            &&& n.1 == s1 ^ s2 ^ s0
            &&& n.2 == s2 ^ s0 ^ (s1 << 17u64)
            &&& n.3 == (x << 45u64) | (x >> 19u64)
            &&& (n.3 >> 45u64) | (n.3 << 19u64) == x
            &&& out == ((((m << 7u64) | (m >> 57u64)) as nat * 9) % 0x1_0000_0000_0000_0000) as u64
            &&& u.1 == s1 ==> xoshiro_step(u).1 == out
        }),
{
    let (s0, s1, s2, s3) = s;
    let x = s3 ^ s1;
    let y = rotl(x, 45);
    assert(y == (x << 45u64) | (x >> 19u64));
    assert(((((x << 45u64) | (x >> 19u64)) >> 45u64) | (((x << 45u64) | (x >> 19u64)) << 19u64)) == x) by (bit_vector);
    assert(s1 ^ (s2 ^ s0) == s1 ^ s2 ^ s0) by (bit_vector);
    assert(s0 ^ (s3 ^ s1) == s0 ^ s3 ^ s1) by (bit_vector);
    let m = wmul(s1, 5);
    assert(rotl(m, 7) == (m << 7u64) | (m >> 57u64));
}

/// The xoshiro256** state seeded from `seed`: four successive SplitMix64
/// outputs.
pub open spec fn xoshiro_seed(seed: u64) -> XoshiroState {
    let (a, o0) = splitmix_step(seed);
    let (b, o1) = splitmix_step(a);
    let (c, o2) = splitmix_step(b);
    let (_d, o3) = splitmix_step(c);
    (o0, o1, o2, o3)
}

/// xoshiro256**, the sampler's core uniform generator.
pub struct Xoshiro256 {
    s: [u64; 4],
}

impl View for Xoshiro256 {
    type V = XoshiroState;

    closed spec fn view(&self) -> XoshiroState {
        (self.s[0], self.s[1], self.s[2], self.s[3])
    }
}

impl Xoshiro256 {
    /// A generator seeded from `seed` through SplitMix64.
    pub fn from_seed(seed: u64) -> (r: Xoshiro256)
        ensures
            r@ == xoshiro_seed(seed),
    {
        let mut sm = SplitMix64::new(seed);
        let a = sm.next_u64();
        let b = sm.next_u64();
        let c = sm.next_u64();
        let d = sm.next_u64();
        Xoshiro256 { s: [a, b, c, d] }
    }

    /// Advance the generator and return its next output.
    pub fn next_u64(&mut self) -> (r: u64)
        ensures
            (final(self)@, r) == xoshiro_step(old(self)@),
    {
        let s0 = self.s[0];
        let s1 = self.s[1];
        let s2 = self.s[2];
        let s3 = self.s[3];
        let result = wrapping_mul_u64(rotate_left_u64(wrapping_mul_u64(s1, 5), 7), 9);
        let t = s1 << 17;
        let n2 = s2 ^ s0;
        let n3 = s3 ^ s1;
        let n1 = s1 ^ n2;
        let n0 = s0 ^ n3;
        self.s = [n0, n1, n2 ^ t, rotate_left_u64(n3, 45)];
        result
    }

    /// The top 53 bits of the next output: the integer that, scaled by
    /// 2^-53, is a uniform deviate in `[0, 1)`.
    pub fn next_u53(&mut self) -> (r: u64)
        ensures
            final(self)@ == xoshiro_step(old(self)@).0,
            r == xoshiro_step(old(self)@).1 >> 11,
            r < 0x20_0000_0000_0000,
    {
        let x = self.next_u64();
        assert(x >> 11 < 0x20_0000_0000_0000) by (bit_vector);
        x >> 11
    }
}

} // verus!
