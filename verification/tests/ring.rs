use xcqa_chain::lattice::params::Q;
use xcqa_chain::lattice::ring::{RingElement, RingVector};

#[test]
fn test_ring_mul_basic() {
    let mut a = RingElement::zero();
    let mut b = RingElement::zero();
    a.coeffs[0] = 5;
    b.coeffs[0] = 3;
    let c = a.mul(&b);
    assert_eq!(c.coeffs[0], 15);
}

#[test]
fn test_ring_mul_reduction() {
    let mut a = RingElement::zero();
    let mut b = RingElement::zero();
    a.coeffs[255] = 2;
    b.coeffs[1] = 3;
    let c = a.mul(&b);
    // X^255 * X^1 = X^256 = -1 (mod X^256+1)
    assert_eq!(c.coeffs[0], Q - 6);
}

#[test]
fn ring_vector_zero_has_requested_size() {
    let v = RingVector::zero(3);
    assert_eq!(v.elements.len(), 3);
    assert!(v.elements.iter().all(|e| e.coeffs.iter().all(|&c| c == 0)));
}

#[test]
fn ring_mul_matches_the_negacyclic_formula() {
    let mut a = RingElement::zero();
    let mut b = RingElement::zero();
    let mut x: u32 = 12345;
    for i in 0..256 {
        x = x.wrapping_mul(1103515245).wrapping_add(12345);
        a.coeffs[i] = x % Q;
        x = x.wrapping_mul(1103515245).wrapping_add(12345);
        b.coeffs[i] = x % Q;
    }
    a.coeffs[0] = Q - 1;
    b.coeffs[255] = Q - 1;
    let c = a.mul(&b);
    for k in 0..256usize {
        let mut acc: i128 = 0;
        for i in 0..256usize {
            let term = a.coeffs[i] as i128 * b.coeffs[(k + 256 - i) % 256] as i128;
            if i <= k {
                acc += term;
            } else {
                acc -= term;
            }
        }
        assert_eq!(c.coeffs[k] as i128, acc.rem_euclid(Q as i128));
    }
}
