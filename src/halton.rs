use vstd::prelude::*;

verus! {

/// The radical inverse of `i` in base `b`, as (numerator, denominator): the
/// base-`b` digits of `i` mirrored about the radix point, so that the digit
/// of weight `b^k` in `i` gets weight `b^-(k+1)` in the result.
pub open spec fn radical_inverse(i: nat, b: nat) -> (nat, nat)
    decreases i
    via radical_inverse_decreases
{
    if b < 2 || i == 0 {
        (0, 1)
    } else {
        let (n, d) = radical_inverse(i / b, b);
        ((i % b) * d + n, d * b)
    }
}

#[via_fn]
proof fn radical_inverse_decreases(i: nat, b: nat) {
    if !(b < 2 || i == 0) {
        vstd::arithmetic::div_mod::lemma_div_is_strictly_smaller(i as int, b as int);
    }
}

/// The first `length` points of the Halton sequence in base `b`, as fractions.
pub open spec fn halton_samples(length: nat, b: nat) -> Seq<(nat, nat)> {
    Seq::new(length, |i: int| radical_inverse(i as nat, b))
}

/// The offset `2n/d - 1` of a fraction `n/d` lies within [-1, 1].
pub open spec fn offset_in_range(p: (nat, nat)) -> bool {
    &&& p.1 >= 1
    &&& -(p.1 as int) <= 2 * p.0 - p.1 <= p.1
}

/// A radical inverse is a proper fraction: `0 <= n < d`.
pub proof fn lemma_radical_inverse_bounds(i: nat, b: nat)
    ensures
        radical_inverse(i, b).1 >= 1,
        radical_inverse(i, b).0 < radical_inverse(i, b).1,
    decreases i,
{
    if !(b < 2 || i == 0) {
        vstd::arithmetic::div_mod::lemma_div_is_strictly_smaller(i as int, b as int);
        vstd::arithmetic::div_mod::lemma_mod_bound(i as int, b as int);
        lemma_radical_inverse_bounds(i / b, b);
        let (n, d) = radical_inverse(i / b, b);
        let r = i % b;
        assert(r * d + n < d * b && d * b >= 1) by (nonlinear_arith)
            requires
                r < b,
                n < d,
                d >= 1,
                b >= 2,
        ;
    }
}

/// A Halton sequence of length `L` gives exactly `L` points, and each of
/// them, as an offset, lies within [-1, 1].
pub proof fn lemma_halton_samples(length: nat, b: nat)
    ensures
        halton_samples(length, b).len() == length,
        forall|i: int| 0 <= i < length ==> offset_in_range(#[trigger] halton_samples(length, b)[i]),
{
    assert forall|i: int| 0 <= i < length implies offset_in_range(
        #[trigger] halton_samples(length, b)[i],
    ) by {
        lemma_radical_inverse_bounds(i as nat, b);
    }
}

/// Two Halton generators with the same length, base and progress give the
/// same points from then on.
pub proof fn lemma_halton_deterministic(s: HaltonSequence, t: HaltonSequence)
    requires
        s@ == t@,
    ensures
        s.remaining() == t.remaining(),
{
}

/// A point `numerator / denominator` of [0, 1); a sample offset on [-1, 1]
/// is `2 * numerator / denominator - 1`.
#[derive(Clone, Copy, Debug, PartialEq, Eq, Structural)]
pub struct Fraction {
    pub numerator: u64,
    pub denominator: u64,
}

impl View for Fraction {
    type V = (nat, nat);

    open spec fn view(&self) -> (nat, nat) {
        (self.numerator as nat, self.denominator as nat)
    }
}

/// What a Halton generator holds: how many points it gave, how many it gives
/// in all, and its base.
pub struct HaltonView {
    pub index: nat,
    pub length: nat,
    pub base: nat,
}

/// A finite Halton sequence of a given length in one base, on [-1, 1].
pub struct HaltonSequence {
    index: u32,
    length: u32,
    base: u32,
}

impl View for HaltonSequence {
    type V = HaltonView;

    closed spec fn view(&self) -> HaltonView {
        HaltonView { index: self.index as nat, length: self.length as nat, base: self.base as nat }
    }
}

impl HaltonSequence {
    pub open spec fn wf(&self) -> bool {
        &&& self@.index <= self@.length
        &&& self@.base >= 2
    }

    /// The points that are still to come.
    pub open spec fn remaining(&self) -> Seq<(nat, nat)> {
        halton_samples(self@.length, self@.base).skip(self@.index as int)
    }

    pub fn new(length: u32, base: u32) -> (r: HaltonSequence)
        requires
            base >= 2,
        ensures
            r.wf(),
            r@ == (HaltonView { index: 0, length: length as nat, base: base as nat }),
            r.remaining() == halton_samples(length as nat, base as nat),
    {
        let r = HaltonSequence { index: 0, length, base };
        proof {
            assert(r.remaining() =~= halton_samples(length as nat, base as nat));
        }
        r
    }

    /// The next point, or `None` once `length` points have been given.
    pub fn next(&mut self) -> (r: Option<Fraction>)
        requires
            old(self).wf(),
        ensures
            final(self).wf(),
            old(self).remaining().len() == 0 ==> r.is_none() && *final(self) == *old(self),
            old(self).remaining().len() > 0 ==> {
                &&& r.is_some()
                &&& r.unwrap()@ == old(self).remaining()[0]
                &&& final(self)@ == (HaltonView { index: old(self)@.index + 1, ..old(self)@ })
            },
            final(self).remaining() == if old(self).remaining().len() == 0 {
                old(self).remaining()
            } else {
                old(self).remaining().drop_first()
            },
    {
        if self.index == self.length {
            proof {
                assert(self.remaining().len() == 0);
            }
            None
        } else {
            let index = self.index;
            self.index = self.index + 1;
            let f = radical_inverse_of(index, self.base);
            proof {
                assert(self.remaining() =~= old(self).remaining().drop_first());
            }
            Some(f)
        }
    }
}

/// A pair of Halton sequences of one length in two bases: points of
/// [-1, 1] × [-1, 1].
pub struct Halton2Sequence {
    seq1: HaltonSequence,
    seq2: HaltonSequence,
}

impl Halton2Sequence {
    pub closed spec fn first(&self) -> HaltonSequence {
        self.seq1
    }

    pub closed spec fn second(&self) -> HaltonSequence {
        self.seq2
    }

    pub open spec fn wf(&self) -> bool {
        &&& self.first().wf()
        &&& self.second().wf()
        &&& self.first()@.index == self.second()@.index
        &&& self.first()@.length == self.second()@.length
    }

    /// The pairs that are still to come.
    pub open spec fn remaining(&self) -> Seq<((nat, nat), (nat, nat))> {
        Seq::new(
            self.first().remaining().len(),
            |i: int| (self.first().remaining()[i], self.second().remaining()[i]),
        )
    }

    pub fn new(length: u32, base1: u32, base2: u32) -> (r: Halton2Sequence)
        requires
            base1 >= 2,
            base2 >= 2,
        ensures
            r.wf(),
            r.first()@ == (HaltonView { index: 0, length: length as nat, base: base1 as nat }),
            r.second()@ == (HaltonView { index: 0, length: length as nat, base: base2 as nat }),
            r.remaining() == Seq::new(
                length as nat,
                |i: int| (radical_inverse(i as nat, base1 as nat), radical_inverse(i as nat, base2 as nat)),
            ),
    {
        let r = Halton2Sequence {
            seq1: HaltonSequence::new(length, base1),
            seq2: HaltonSequence::new(length, base2),
        };
        proof {
            assert(r.remaining() =~= Seq::new(
                length as nat,
                |i: int| (radical_inverse(i as nat, base1 as nat), radical_inverse(i as nat, base2 as nat)),
            ));
        }
        r
    }

    /// The next pair of points, or `None` once `length` pairs have been given.
    pub fn next(&mut self) -> (r: Option<(Fraction, Fraction)>)
        requires
            old(self).wf(),
        ensures
            final(self).wf(),
            old(self).remaining().len() == 0 ==> r.is_none(),
            old(self).remaining().len() > 0 ==> {
                &&& r.is_some()
                &&& (r.unwrap().0@, r.unwrap().1@) == old(self).remaining()[0]
            },
            final(self).remaining() == if old(self).remaining().len() == 0 {
                old(self).remaining()
            } else {
                old(self).remaining().drop_first()
            },
    {
        let a = match self.seq1.next() {
            Some(a) => a,
            None => {
                return None;
            },
        };
        let b = match self.seq2.next() {
            Some(b) => b,
            None => {
                return None;
            },
        };
        proof {
            assert(self.remaining() =~= old(self).remaining().drop_first());
        }
        Some((a, b))
    }
}

/// The radical inverse of `index` in base `base`, computed digit by digit
/// from the least significant one.
fn radical_inverse_of(index: u32, base: u32) -> (r: Fraction)
    requires
        base >= 2,
    ensures
        r@ == radical_inverse(index as nat, base as nat),
{
    let b = base as u64;
    let mut i: u32 = index;
    let mut num: u64 = 0;
    let mut den: u64 = 1;
    while i > 0
        invariant
            b == base,
            base >= 2,
            1 <= den,
            num < den,
            i * den <= index,
            radical_inverse(index as nat, base as nat) == shifted(
                num as nat,
                den as nat,
                radical_inverse(i as nat, base as nat),
            ),
        decreases i,
    {
        proof {
            lemma_digit_step(i as nat, b as nat, num as nat, den as nat, index as nat);
            vstd::arithmetic::div_mod::lemma_div_is_strictly_smaller(i as int, base as int);
        }
        num = num * b + (i % base) as u64;
        den = den * b;
        i = i / base;
    }
    Fraction { numerator: num, denominator: den }
}

/// The fraction `num / den + rest / den`, that is the digits already read
/// followed by those of `rest`.
spec fn shifted(num: nat, den: nat, rest: (nat, nat)) -> (nat, nat) {
    (num * rest.1 + rest.0, den * rest.1)
}

/// One step of the digit loop: taking the lowest digit of `i` into the
/// accumulated fraction leaves the overall value unchanged, and nothing
/// overflows.
proof fn lemma_digit_step(i: nat, b: nat, num: nat, den: nat, index: nat)
    requires
        b >= 2,
        b < 0x1_0000_0000,
        i > 0,
        1 <= den,
        num < den,
        i * den <= index,
        index < 0x1_0000_0000,
        radical_inverse(index, b) == shifted(num, den, radical_inverse(i, b)),
    ensures
        num * b + i % b < den * b,
        den * b < 0x1_0000_0000_0000_0000,
        (i / b) * (den * b) <= index,
        radical_inverse(index, b) == shifted(num * b + i % b, den * b, radical_inverse(i / b, b)),
{
    let q = i / b;
    let r = i % b;
    let (n, d) = radical_inverse(q, b);
    vstd::arithmetic::div_mod::lemma_fundamental_div_mod(i as int, b as int);
    assert(den < 0x1_0000_0000) by (nonlinear_arith)
        requires
            i > 0,
            i * den <= index,
            index < 0x1_0000_0000,
    ;
    assert(num * b + r < den * b) by (nonlinear_arith)
        requires
            num < den,
            r < b,
    ;
    assert(den * b < 0x1_0000_0000_0000_0000) by (nonlinear_arith)
        requires
            den < 0x1_0000_0000,
            b < 0x1_0000_0000,
    ;
    assert(q * (den * b) <= index) by (nonlinear_arith)
        requires
            i == b * q + r,
            0 <= r,
            i * den <= index,
            q >= 0,
            den >= 1,
    ;
    assert(num * (d * b) + (r * d + n) == (num * b + r) * d + n) by (nonlinear_arith);
    assert(den * (d * b) == (den * b) * d) by (nonlinear_arith);
}

} // verus!
