//! Deterministic, dependency-free random number generation.
//!
//! Every simulation domain draws from its own stream, derived from the world
//! seed plus a domain tag, so one system consuming an extra number never
//! shifts another system's draws. Splitmix64 splits the seed into stream
//! state and xoshiro256** generates from it.

use vstd::prelude::*;

verus! {

/// Splitmix64's additive constant (the golden-ratio increment).
pub const SPLITMIX_GAMMA: u64 = 0x9E3779B97F4A7C15;
pub const SPLITMIX_MUL_1: u64 = 0xBF58476D1CE4E5B9;
pub const SPLITMIX_MUL_2: u64 = 0x94D049BB133111EB;
pub const FNV_OFFSET_BASIS: u64 = 0xcbf29ce484222325;
pub const FNV_PRIME: u64 = 0x100000001b3;

/// `2^53`: the number of equally likely values a 53-bit draw takes. A
/// probability `p` is expressed to [`SimRng::chance_scaled`] as the integer
/// threshold `ceil(p * 2^53)`.
pub const CHANCE_SCALE: u64 = 0x20_0000_0000_0000;

pub open spec fn wmul(x: u64, y: u64) -> u64 {
    vstd::wrapping::u64_specs::wrapping_mul(x, y)
}

pub open spec fn wadd(x: u64, y: u64) -> u64 {
    vstd::wrapping::u64_specs::wrapping_add(x, y)
}

/// The output mix splitmix64 applies to its freshly advanced state.
pub open spec fn splitmix_mix(z: u64) -> u64 {
    let z1 = wmul(z ^ (z >> 30u64), SPLITMIX_MUL_1);
    let z2 = wmul(z1 ^ (z1 >> 27u64), SPLITMIX_MUL_2);
    z2 ^ (z2 >> 31u64)
}

/// The state after `k` further splitmix64 draws starting at `state`.
pub open spec fn splitmix_state(state: u64, k: nat) -> u64
    decreases k,
{
    if k == 0 {
        state
    } else {
        wadd(splitmix_state(state, (k - 1) as nat), SPLITMIX_GAMMA)
    }
}

/// The `k`-th splitmix64 output (counting from 1) starting at `state`.
pub open spec fn splitmix_output(state: u64, k: nat) -> u64 {
    splitmix_mix(splitmix_state(state, k))
}

/// 64-bit FNV-1a over a byte sequence.
pub open spec fn fnv1a(bytes: Seq<u8>) -> u64
    decreases bytes.len(),
{
    if bytes.len() == 0 {
        FNV_OFFSET_BASIS
    } else {
        wmul(fnv1a(bytes.drop_last()) ^ (bytes.last() as u64), FNV_PRIME)
    }
}

/// Rotate a 64-bit word left by `k` bits, `0 < k < 64`.
pub open spec fn rotl(x: u64, k: u64) -> u64 {
    (x << k) | (x >> ((64 - k) as u64))
}

/// The four words of a xoshiro256** state.
pub type RngState = (u64, u64, u64, u64);

/// The value xoshiro256** outputs from `s` (before stepping).
pub open spec fn xoshiro_output(s: RngState) -> u64 {
    wmul(rotl(wmul(s.1, 5), 7), 9)
}

/// The xoshiro256** state transition.
pub open spec fn xoshiro_step(s: RngState) -> RngState {
    let t = s.1 << 17u64;
    let n2 = s.2 ^ s.0;
    let n3 = s.3 ^ s.1;
    let n1 = s.1 ^ n2;
    let n0 = s.0 ^ n3;
    (n0, n1, n2 ^ t, rotl(n3, 45))
}

/// The state after `k` steps from `s`.
pub open spec fn xoshiro_advance(s: RngState, k: nat) -> RngState
    decreases k,
{
    if k == 0 {
        s
    } else {
        xoshiro_step(xoshiro_advance(s, (k - 1) as nat))
    }
}

/// The `k`-th value (counting from 0) of the stream starting at state `s`.
pub open spec fn stream_value(s: RngState, k: nat) -> u64 {
    xoshiro_output(xoshiro_advance(s, k))
}

pub open spec fn is_zero_state(s: RngState) -> bool {
    s.0 == 0 && s.1 == 0 && s.2 == 0 && s.3 == 0
}

/// The xoshiro256** state that seeding from the mixed seed `mix` produces:
/// four splitmix64 outputs, with the all-zero state replaced by `(1, 0, 0, 0)`.
pub open spec fn state_from_mix(mix: u64) -> RngState {
    let s = (
        splitmix_output(mix, 1),
        splitmix_output(mix, 2),
        splitmix_output(mix, 3),
        splitmix_output(mix, 4),
    );
    if is_zero_state(s) {
        (1, 0, 0, 0)
    } else {
        s
    }
}

/// The initial state of the stream for `domain` under `world_seed`: the seed
/// xor the FNV-1a hash of the domain's UTF-8 bytes, split by splitmix64.
pub open spec fn seeded_state(world_seed: u64, domain: Seq<char>) -> RngState {
    state_from_mix(world_seed ^ fnv1a(vstd::utf8::encode_utf8(domain)))
}

/// Advances the splitmix64 `state` once and returns the mixed output.
fn splitmix64_next(state: &mut u64) -> (r: u64)
    ensures
        *final(state) == wadd(*old(state), SPLITMIX_GAMMA),
        r == splitmix_mix(*final(state)),
{
    *state = state.wrapping_add(SPLITMIX_GAMMA);
    let mut z: u64 = *state;
    z = (z ^ (z >> 30u64)).wrapping_mul(SPLITMIX_MUL_1);
    z = (z ^ (z >> 27u64)).wrapping_mul(SPLITMIX_MUL_2);
    z ^ (z >> 31u64)
}

/// 64-bit FNV-1a hash of `bytes`.
pub fn fnv1a64(bytes: &[u8]) -> (hash: u64)
    ensures
        hash == fnv1a(bytes@),
{
    let mut hash: u64 = FNV_OFFSET_BASIS;
    let mut i: usize = 0;
    while i < bytes.len()
        invariant
            i <= bytes@.len(),
            hash == fnv1a(bytes@.take(i as int)),
        decreases bytes@.len() - i,
    {
        assert(bytes@.take(i + 1).drop_last() =~= bytes@.take(i as int));
        hash ^= bytes[i] as u64;
        hash = hash.wrapping_mul(FNV_PRIME);
        i += 1;
    }
    assert(bytes@.take(bytes@.len() as int) =~= bytes@);
    hash
}

/// A named, independent deterministic random stream (xoshiro256**).
///
/// Two `SimRng`s built from the same world seed and the same domain tag
/// always produce the same sequence, whatever any other stream consumed.
#[derive(Debug, Clone, PartialEq, Eq)]
pub struct SimRng {
    s0: u64,
    s1: u64,
    s2: u64,
    s3: u64,
}

impl View for SimRng {
    type V = RngState;

    closed spec fn view(&self) -> RngState {
        (self.s0, self.s1, self.s2, self.s3)
    }
}

impl SimRng {
    /// Derive the stream for `domain` from a world seed. `domain` is a short
    /// stable tag such as `"worldgen"` or `"traits:42"`.
    pub fn from_seed(world_seed: u64, domain: &str) -> (rng: Self)
        ensures
            rng@ == seeded_state(world_seed, domain@),
            !is_zero_state(rng@),
    {
        let mut mix: u64 = world_seed ^ fnv1a64(domain.as_bytes());
        let ghost m = mix;
        let a: u64 = splitmix64_next(&mut mix);
        let b: u64 = splitmix64_next(&mut mix);
        let c: u64 = splitmix64_next(&mut mix);
        let d: u64 = splitmix64_next(&mut mix);
        proof {
            reveal_with_fuel(splitmix_state, 5);
        }
        if a == 0 && b == 0 && c == 0 && d == 0 {
            SimRng { s0: 1, s1: 0, s2: 0, s3: 0 }
        } else {
            SimRng { s0: a, s1: b, s2: c, s3: d }
        }
    }

    /// Rebuild a stream from raw state words (as stored in a save file).
    pub fn from_state(state: [u64; 4]) -> (rng: Self)
        ensures
            rng@ == (state@[0], state@[1], state@[2], state@[3]),
    {
        SimRng { s0: state[0], s1: state[1], s2: state[2], s3: state[3] }
    }

    /// The raw state words, in the order [`SimRng::from_state`] takes them.
    pub fn state(&self) -> (state: [u64; 4])
        ensures
            state@ =~= seq![self@.0, self@.1, self@.2, self@.3],
    {
        [self.s0, self.s1, self.s2, self.s3]
    }

    /// The next raw 64-bit value of the stream.
    pub fn next_u64(&mut self) -> (r: u64)
        ensures
            r == xoshiro_output(old(self)@),
            final(self)@ == xoshiro_step(old(self)@),
    {
        let result: u64 = {
            let x: u64 = self.s1.wrapping_mul(5);
            let rotated: u64 = (x << 7u64) | (x >> 57u64);
            rotated.wrapping_mul(9)
        };
        let t: u64 = self.s1 << 17u64;
        self.s2 = self.s2 ^ self.s0;
        self.s3 = self.s3 ^ self.s1;
        self.s1 = self.s1 ^ self.s2;
        self.s0 = self.s0 ^ self.s3;
        self.s2 = self.s2 ^ t;
        self.s3 = (self.s3 << 45u64) | (self.s3 >> 19u64);
        result
    }

    /// Uniform integer in `[0, bound)`. `bound` must be > 0.
    pub fn next_below(&mut self, bound: u32) -> (r: u32)
        requires
            bound > 0,
        ensures
            r == xoshiro_output(old(self)@) % (bound as u64),
            r < bound,
            final(self)@ == xoshiro_step(old(self)@),
    {
        (self.next_u64() % (bound as u64)) as u32
    }

    /// Pick an index for a slice of length `len`. The length is taken
    /// modulo `2^32` (as `u32`), which must not be zero.
    pub fn pick_index(&mut self, len: usize) -> (r: usize)
        requires
            (len as u32) > 0,
        ensures
            r == xoshiro_output(old(self)@) % ((len as u32) as u64),
            len <= u32::MAX ==> r < len,
            final(self)@ == xoshiro_step(old(self)@),
    {
        self.next_below(len as u32) as usize
    }

    /// True when the top 53 bits of the next draw fall below `threshold`:
    /// a chance of `threshold / 2^53` (certain from `2^53` up). A probability
    /// `p` in `[0, 1]` corresponds to the threshold `ceil(p * 2^53)`.
    pub fn chance_scaled(&mut self, threshold: u64) -> (b: bool)
        ensures
            b == ((xoshiro_output(old(self)@) >> 11u64) < threshold),
            final(self)@ == xoshiro_step(old(self)@),
    {
        (self.next_u64() >> 11u64) < threshold
    }
}

/// The xoshiro256** transition never reaches the all-zero state from a
/// non-zero one, so a stream seeded by [`SimRng::from_seed`] (never all
/// zero) stays usable forever.
pub proof fn lemma_step_preserves_nonzero_state(s: RngState)
    ensures
        !is_zero_state(s) ==> !is_zero_state(xoshiro_step(s)),
{
    let (a, b, c, d) = s;
    assert(
        ((a ^ (d ^ b)) == 0 && (b ^ (c ^ a)) == 0 && ((c ^ a) ^ (b << 17u64)) == 0
            && (((d ^ b) << 45u64) | ((d ^ b) >> 19u64)) == 0)
        ==> (a == 0 && b == 0 && c == 0 && d == 0)
    ) by (bit_vector);
}

/// Any number of steps keeps a non-zero state non-zero.
pub proof fn lemma_advance_preserves_nonzero_state(s: RngState, k: nat)
    requires
        !is_zero_state(s),
    ensures
        !is_zero_state(xoshiro_advance(s, k)),
    decreases k,
{
    if k > 0 {
        lemma_advance_preserves_nonzero_state(s, (k - 1) as nat);
        lemma_step_preserves_nonzero_state(xoshiro_advance(s, (k - 1) as nat));
    }
}

/// Advancing `a` steps and then `b` more is advancing `a + b` steps.
pub proof fn lemma_advance_compose(s: RngState, a: nat, b: nat)
    ensures
        xoshiro_advance(xoshiro_advance(s, a), b) == xoshiro_advance(s, a + b),
    decreases b,
{
    if b > 0 {
        lemma_advance_compose(s, a, (b - 1) as nat);
    }
}

/// `next_below` never escapes its bound, for every state and bound.
pub proof fn lemma_next_below_in_bounds(s: RngState, bound: u32)
    requires
        bound > 0,
    ensures
        xoshiro_output(s) % (bound as u64) < bound,
{
}

/// The career stream a save from before careers existed resumes with: no
/// career exists on such a save, so nothing draws from it until a new one
/// is seeded; any fixed seed would do.
pub fn default_career_rng() -> (rng: SimRng)
    ensures
        rng@ == seeded_state(0, "career"@),
{
    SimRng::from_seed(0, "career")
}

/// Whether the threshold `t` stands for the chance `num / den`: `t` is
/// `num / den * 2^53` to within one (the chance as a fraction of the 2^53
/// equally likely 53-bit draws).
pub open spec fn threshold_for_chance(t: u64, num: int, den: int) -> bool {
    (t - 1) * den < num * (CHANCE_SCALE as int) && num * (CHANCE_SCALE as int) < (t + 1) * den
}

/// A draw's top 53 bits fall below a threshold `t` exactly when the whole
/// draw falls below `t * 2^11`: a chance roll succeeds when the draw, as a
/// fraction of `2^64`, is below `t / 2^53`.
pub proof fn lemma_top_bits_below(x: u64, t: u64)
    ensures
        ((x >> 11u64) < t) <==> (x as int) < (t as int) * 2048,
{
    assert(x >> 11u64 == x / 2048) by (bit_vector);
    let q = (x / 2048) as int;
    let r = (x % 2048) as int;
    assert(x as int == 2048 * q + r && 0 <= r < 2048);
    if q < t {
        assert(2048 * q + 2048 <= 2048 * (t as int)) by (nonlinear_arith) requires q + 1 <= t;
    } else {
        assert(2048 * q >= 2048 * (t as int)) by (nonlinear_arith) requires q >= t;
    }
}

} // verus!
