use vstd::prelude::*;

verus! {

/// The seed of the generator that the renderer starts from.
pub const DEFAULT_SEED: u64 = 749738427937290380;

/// Bits of mantissa in an IEEE 754 single-precision float.
pub const MANTISSA_BITS: u32 = 23;

/// Exponent bias of an IEEE 754 single-precision float.
pub const EXP_BIAS: u32 = 127;

/// The odd multiplier that spreads worker numbers over the seed space
/// (2^64 divided by the golden ratio).
pub const SEED_SPREAD: u64 = 0x9E37_79B9_7F4A_7C15;

/// The seed of worker `worker`: the default seed mixed with the worker number
/// times `SEED_SPREAD` (mod 2^64), or the default seed where that mix is 0, the
/// one state that xorshift never leaves.
pub open spec fn worker_seed_spec(worker: u64) -> u64 {
    let mixed = DEFAULT_SEED ^ ((worker as int * SEED_SPREAD as int) % 0x1_0000_0000_0000_0000) as u64;
    if mixed == 0 {
        DEFAULT_SEED
    } else {
        mixed
    }
}

/// One step of Marsaglia's 64-bit xorshift generator (shifts 13, 7, 17).
pub open spec fn xorshift(s: u64) -> u64 {
    let a = s ^ (s << 13u64);
    let b = a ^ (a >> 7u64);
    b ^ (b << 17u64)
}

/// The bits of a single-precision float in [1, 2) whose mantissa is taken
/// from bits 40 to 62 of `r`: sign 0, biased exponent 127.
pub open spec fn unit_float_bits(r: u64) -> u32 {
    ((r >> 40u64) as u32) | 0x3F80_0000u32
}

/// A pseudo-random generator, one for each worker: its whole state is one
/// 64-bit word.
pub struct Xorshift {
    state: u64,
}

impl View for Xorshift {
    type V = u64;

    closed spec fn view(&self) -> u64 {
        self.state
    }
}

/// A seed of its own for each worker, never 0.
pub fn worker_seed(worker: u64) -> (r: u64)
    ensures
        r == worker_seed_spec(worker),
        r != 0,
{
    let spread = worker.wrapping_mul(SEED_SPREAD);
    proof {
        assert(spread == ((worker as int * SEED_SPREAD as int) % 0x1_0000_0000_0000_0000) as u64);
    }
    let mixed = DEFAULT_SEED ^ spread;
    if mixed == 0 {
        DEFAULT_SEED
    } else {
        mixed
    }
}

impl Xorshift {
    pub fn new(seed: u64) -> (r: Xorshift)
        ensures
            r@ == seed,
    {
        Xorshift { state: seed }
    }

    /// Advances the state by one xorshift step and returns the new state.
    pub fn next_random_state(&mut self) -> (r: u64)
        ensures
            r == xorshift(old(self)@),
            final(self)@ == r,
    {
        let mut s = self.state;
        s = s ^ (s << 13u64);
        s = s ^ (s >> 7u64);
        s = s ^ (s << 17u64);
        self.state = s;
        s
    }

    /// Advances the state and returns the bits of a single-precision float
    /// in [1, 2) that takes its 23 mantissa bits from the top of the new
    /// state (below its highest bit);
    /// that float minus one is uniform on [0, 1) and never 1.
    pub fn random_uniform_bits(&mut self) -> (r: u32)
        ensures
            r == unit_float_bits(xorshift(old(self)@)),
            r >> MANTISSA_BITS == EXP_BIAS,
            r & 0x7F_FFFFu32 == (xorshift(old(self)@) >> 40u64) & 0x7F_FFFFu64,
            final(self)@ == xorshift(old(self)@),
    {
        let r = self.next_random_state();
        let top = r >> (63 - MANTISSA_BITS) as u64;
        proof {
            assert(top < 0x100_0000u64) by (bit_vector)
                requires
                    top == r >> 40u64,
            ;
        }
        let m = top as u32;
        let e = EXP_BIAS << MANTISSA_BITS;
        proof {
            assert(e == 0x3F80_0000u32) by (bit_vector)
                requires
                    e == 127u32 << 23u32,
            ;
            assert((m | e) >> 23u32 == 127u32 && (m | e) & 0x7F_FFFFu32 == top & 0x7F_FFFFu64)
                by (bit_vector)
                requires
                    top < 0x100_0000u64,
                    m == top as u32,
                    e == 0x3F80_0000u32,
            ;
        }
        m | e
    }
}

} // verus!
