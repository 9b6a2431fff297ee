use raytracer::halton::{Fraction, Halton2Sequence, HaltonSequence};

fn frac(numerator: u64, denominator: u64) -> Fraction {
    Fraction { numerator, denominator }
}

fn offset(f: Fraction) -> f64 {
    2.0 * (f.numerator as f64) / (f.denominator as f64) - 1.0
}

#[test]
fn halton_base_two_values() {
    let mut s = HaltonSequence::new(5, 2);
    assert_eq!(s.next(), Some(frac(0, 1)));
    assert_eq!(s.next(), Some(frac(1, 2)));
    assert_eq!(s.next(), Some(frac(1, 4)));
    assert_eq!(s.next(), Some(frac(3, 4)));
    assert_eq!(s.next(), Some(frac(1, 8)));
    assert_eq!(s.next(), None);
}

#[test]
fn halton_base_three_values() {
    let mut s = HaltonSequence::new(6, 3);
    let got: Vec<Option<Fraction>> = (0..7).map(|_| s.next()).collect();
    assert_eq!(
        got,
        vec![
            Some(frac(0, 1)),
            Some(frac(1, 3)),
            Some(frac(2, 3)),
            Some(frac(1, 9)),
            Some(frac(4, 9)),
            Some(frac(7, 9)),
            None
        ]
    );
}

#[test]
fn halton_offsets_on_minus_one_to_one() {
    let mut s = HaltonSequence::new(4, 2);
    let offsets: Vec<f64> = (0..4).map(|_| offset(s.next().unwrap())).collect();
    assert_eq!(offsets, vec![-1.0, 0.0, -0.5, 0.5]);
}

#[test]
fn halton_gives_exactly_length_values() {
    for &length in &[0u32, 1, 7, 100] {
        for &base in &[2u32, 3, 5] {
            let mut s = HaltonSequence::new(length, base);
            let mut count = 0u32;
            while let Some(f) = s.next() {
                assert!(f.numerator < f.denominator);
                let o = offset(f);
                assert!((-1.0..=1.0).contains(&o));
                count += 1;
            }
            assert_eq!(count, length);
            assert_eq!(s.next(), None);
        }
    }
}

#[test]
fn halton_is_deterministic() {
    let mut a = HaltonSequence::new(50, 3);
    let mut b = HaltonSequence::new(50, 3);
    for _ in 0..51 {
        assert_eq!(a.next(), b.next());
    }
}

#[test]
fn halton_large_index_and_base() {
    let mut s = HaltonSequence::new(3, 4_000_000_000);
    assert_eq!(s.next(), Some(frac(0, 1)));
    assert_eq!(s.next(), Some(frac(1, 4_000_000_000)));
    assert_eq!(s.next(), Some(frac(2, 4_000_000_000)));
    assert_eq!(s.next(), None);
}

#[test]
fn halton2_pairs_bases() {
    let mut s = Halton2Sequence::new(3, 2, 3);
    assert_eq!(s.next(), Some((frac(0, 1), frac(0, 1))));
    assert_eq!(s.next(), Some((frac(1, 2), frac(1, 3))));
    assert_eq!(s.next(), Some((frac(1, 4), frac(2, 3))));
    assert_eq!(s.next(), None);
    assert_eq!(s.next(), None);
}

#[test]
fn halton2_empty() {
    let mut s = Halton2Sequence::new(0, 2, 3);
    assert_eq!(s.next(), None);
}
