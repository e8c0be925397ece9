use curve25519_dalek::edwards::{CompressedEdwardsY, EdwardsPoint};
use curve25519_dalek::scalar::Scalar as DScalar;
use rand_core::OsRng;
use zkplmt::point::{get_G, get_K, Point};
use zkplmt::scalar::{sum_scalars, Scalar};
use zkplmt::value_bound_signature::{
    create_blinding_signature, create_random_divisions, verify_blinding_signatures, ValueCommitmentPublic,
};

fn sc(s: DScalar) -> Scalar {
    Scalar::from_canonical_bytes(s.to_bytes()).unwrap()
}

fn pt(p: EdwardsPoint) -> Point {
    Point::from_bytes(p.compress().to_bytes()).unwrap()
}

fn ed(p: &Point) -> EdwardsPoint {
    CompressedEdwardsY(p.to_bytes()).decompress().unwrap()
}

#[allow(non_snake_case)]
fn member(s: DScalar, v: DScalar) -> ValueCommitmentPublic {
    let G = ed(&get_G().unwrap());
    let K = ed(&get_K().unwrap());
    let S = s * G;
    let V = v * s * K;
    let a = DScalar::random(&mut OsRng);
    let A = a * G;
    let p = DScalar::random(&mut OsRng);
    let B = p * A;
    ValueCommitmentPublic { S: pt(S), V: pt(V), A: pt(A), B: pt(B) }
}

#[test]
fn test_random_divisions() {
    let sum = sc(DScalar::random(&mut OsRng));
    let divisions = create_random_divisions(sum, 5);
    assert_eq!(divisions.len(), 5);

    let s = sum_scalars(&divisions);

    assert_eq!(s, sum);
}

#[test]
fn random_divisions_of_one_part() {
    let sum = sc(DScalar::random(&mut OsRng));
    let divisions = create_random_divisions(sum, 1);
    assert_eq!(divisions, vec![sum]);
}

#[test]
fn test_blinding_signature() {
    let mut input_tuples = Vec::new();

    for _ in 0..3 {
        input_tuples.push(member(DScalar::random(&mut OsRng), DScalar::random(&mut OsRng)));
    }

    let s = DScalar::random(&mut OsRng);
    let v = DScalar::random(&mut OsRng);
    input_tuples.push(member(s, v));
    assert_eq!(input_tuples.len(), 4);

    for _ in 0..5 {
        input_tuples.push(member(DScalar::random(&mut OsRng), DScalar::random(&mut OsRng)));
    }

    let ss = sc(DScalar::random(&mut OsRng));
    let signature = create_blinding_signature(&mut input_tuples, sc(v), sc(s), ss, 3).unwrap();
    assert!(verify_blinding_signatures(&input_tuples, &signature));
}

#[test]
fn blinding_signature_fails_for_other_ring() {
    let mut ring = Vec::new();
    for _ in 0..3 {
        ring.push(member(DScalar::random(&mut OsRng), DScalar::random(&mut OsRng)));
    }
    let s = DScalar::random(&mut OsRng);
    let v = DScalar::random(&mut OsRng);
    ring.push(member(s, v));
    let signature = create_blinding_signature(&ring, sc(v), sc(s), sc(DScalar::random(&mut OsRng)), 3).unwrap();
    assert!(verify_blinding_signatures(&ring, &signature));
    let mut other = ring.clone();
    other[3] = member(DScalar::random(&mut OsRng), DScalar::random(&mut OsRng));
    assert!(!verify_blinding_signatures(&other, &signature));
}
