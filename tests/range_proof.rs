use curve25519_dalek::edwards::{CompressedEdwardsY, EdwardsPoint};
use curve25519_dalek::scalar::Scalar as DScalar;
use rand_core::OsRng;
use zkplmt::point::{get_G, get_K, Point};
use zkplmt::range_proof::{create_range_proof, get_ith_power_of_2, verify_range_proof};
use zkplmt::scalar::Scalar;

fn sc(s: DScalar) -> Scalar {
    Scalar::from_canonical_bytes(s.to_bytes()).unwrap()
}

fn pt(p: EdwardsPoint) -> Point {
    Point::from_bytes(p.compress().to_bytes()).unwrap()
}

fn ed(p: &Point) -> EdwardsPoint {
    CompressedEdwardsY(p.to_bytes()).decompress().unwrap()
}

fn bytes_with(pairs: &[(usize, u8)]) -> [u8; 32] {
    let mut b = [0u8; 32];
    for (i, v) in pairs {
        b[*i] = *v;
    }
    b
}

#[test]
fn test_get_ith_power_of_2() {
    let four = bytes_with(&[(0, 4)]);
    let s_4 = DScalar::from_bits(four);
    assert_eq!(s_4.to_bytes(), get_ith_power_of_2(2).to_bytes());

    let huge_number = bytes_with(&[(2, 4)]);
    let s_hn = DScalar::from_bits(huge_number);
    assert_eq!(s_hn.to_bytes(), get_ith_power_of_2(18).to_bytes());
}

#[test]
fn test_scalar_bits() {
    let one = bytes_with(&[(0, 1)]);
    let four = bytes_with(&[(0, 4)]);
    let five = bytes_with(&[(0, 5)]);
    let huge_number = bytes_with(&[(9, 1)]);
    let huge_result = bytes_with(&[(0, 5), (9, 1)]);

    let s_1 = DScalar::from_bits(one);
    let s_4 = DScalar::from_bits(four);
    let s_5 = DScalar::from_bits(five);
    let s_hn = DScalar::from_bits(huge_number);
    let s_hr = DScalar::from_bits(huge_result);

    assert_eq!(s_1 + s_4, s_5);

    assert_eq!(s_5 + s_hn, s_hr);

    let base_point = ed(&get_G().unwrap());

    assert_eq!(s_1 * base_point, base_point);

    let value = 5;
    assert_eq!(value >> 1, 2);
}

#[allow(non_snake_case)]
fn bases_summing_to_zero(n: usize, G: EdwardsPoint) -> Vec<Point> {
    let mut bases = Vec::new();
    let mut sum = DScalar::zero();
    for _ in 0..n - 1 {
        let r = DScalar::random(&mut OsRng);
        sum = sum + r;
        bases.push(pt(r * G));
    }
    bases.push(pt((-sum) * G));
    bases
}

#[allow(non_snake_case)]
#[test]
fn test_range_proof() {
    let five = bytes_with(&[(0, 5)]);

    let v = DScalar::from_bits(five);
    let G = ed(&get_G().unwrap());

    let s = DScalar::random(&mut OsRng);
    let K = ed(&get_K().unwrap());
    let V = pt(v * s * K);

    let n = 8;
    let bases = bases_summing_to_zero(n, G);
    let range_proof = create_range_proof(sc(v), sc(s), &bases).unwrap();
    assert!(verify_range_proof(V, &bases, n, &range_proof));

    let huge_number = bytes_with(&[(0, 31), (1, 111), (2, 4)]);

    let v = DScalar::from_bits(huge_number);

    let V = pt(v * s * K);
    let n = 19;
    let bases = bases_summing_to_zero(n, G);

    let range_proof = create_range_proof(sc(v), sc(s), &bases).unwrap();
    assert!(verify_range_proof(V, &bases, n, &range_proof));
}

#[allow(non_snake_case)]
#[test]
fn bit_range_proof_rejects_other_value_and_length() {
    let G = ed(&get_G().unwrap());
    let K = ed(&get_K().unwrap());
    let s = DScalar::random(&mut OsRng);
    let n = 8;
    let bases = bases_summing_to_zero(n, G);
    let proof = create_range_proof(sc(DScalar::from(6u64)), sc(s), &bases).unwrap();
    assert!(verify_range_proof(pt(DScalar::from(6u64) * s * K), &bases, n, &proof));
    assert!(!verify_range_proof(pt(DScalar::from(7u64) * s * K), &bases, n, &proof));
    assert!(!verify_range_proof(pt(DScalar::from(6u64) * s * K), &bases, 7, &proof));
}

#[test]
fn power_of_two_beyond_a_byte() {
    assert_eq!(get_ith_power_of_2(0).to_bytes(), bytes_with(&[(0, 1)]));
    assert_eq!(get_ith_power_of_2(13).to_bytes(), bytes_with(&[(1, 32)]));
}
