use scuffed::fraction::Fraction;

fn gcd(a: u32, b: u32) -> u32 {
    if b == 0 { a } else { gcd(b, a % b) }
}

#[test]
fn simplify_reduces_to_lowest_terms() {
    let f = Fraction::new(2024, 748).simplify();
    assert_eq!((f.numerator, f.denominator), (46, 17));
    assert_eq!(gcd(f.numerator, f.denominator), 1);
    assert_eq!(f.numerator as u64 * 748, 2024u64 * f.denominator as u64);
}

#[test]
fn simplify_with_zero_numerator() {
    let f = Fraction::new(0, 90_000).simplify();
    assert_eq!((f.numerator, f.denominator), (0, 1));
}

#[test]
fn simplify_keeps_reduced_fraction() {
    let f = Fraction::new(1, 1000).simplify();
    assert_eq!(f, Fraction::new(1, 1000));
    let g = Fraction::new(1001, 30000).simplify();
    assert_eq!(g, Fraction::new(1001, 30000));
}
