use curve25519_dalek::edwards::{CompressedEdwardsY, EdwardsPoint};
use curve25519_dalek::scalar::Scalar as DScalar;
use rand_core::OsRng;
use zkplmt::point::{get_random_curve_point, CurveVector, Point, VectorTuple};
use zkplmt::scalar::Scalar;
use zkplmt::zkplmt::{create_zkplmt, create_zkplmt_shuffle, verify_zkplmt};

fn sc(s: DScalar) -> Scalar {
    Scalar::from_canonical_bytes(s.to_bytes()).unwrap()
}

fn pt(p: EdwardsPoint) -> Point {
    Point::from_bytes(p.compress().to_bytes()).unwrap()
}

fn ed(p: &Point) -> EdwardsPoint {
    CompressedEdwardsY(p.to_bytes()).decompress().unwrap()
}

fn rand_point() -> Point {
    get_random_curve_point().unwrap()
}

fn related(secret: DScalar, n: usize) -> VectorTuple {
    let mut values = Vec::new();
    for _ in 0..n {
        let base = rand_point();
        values.push(CurveVector { x: base, y: pt(secret * ed(&base)) });
    }
    VectorTuple { values }
}

fn unrelated(n: usize) -> VectorTuple {
    let mut values = Vec::new();
    for _ in 0..n {
        values.push(CurveVector { x: rand_point(), y: rand_point() });
    }
    VectorTuple { values }
}

#[test]
fn lib_test_zkplmt() {
    let secret = DScalar::random(&mut OsRng);
    let mut tuples = vec![related(secret, 3)];
    for _ in 1..15 {
        tuples.push(unrelated(3));
    }
    let signature = create_zkplmt_shuffle(&mut tuples, sc(secret));
    let result = verify_zkplmt(&tuples, &signature);
    assert_eq!(result, true);
}

#[test]
fn test_zkplmt_single() {
    let secret = DScalar::random(&mut OsRng);
    let tuples = vec![related(secret, 5)];
    let signature = create_zkplmt(&tuples, 0, sc(secret));
    let result = verify_zkplmt(&tuples, &signature);
    assert_eq!(result, true);
}

#[test]
fn test_zkplmt_fail() {
    let secret = DScalar::random(&mut OsRng);
    let tuple_1 = related(secret, 3);
    let tuple_2 = unrelated(3);
    let tuple_3 = unrelated(3);
    let tuples = vec![tuple_2, tuple_1, tuple_3];
    let signature = create_zkplmt(&tuples, 2usize, sc(secret));
    let result = verify_zkplmt(&tuples, &signature);
    assert_eq!(result, false);
}

#[test]
fn zkplmt_const_size_test_zkplmt() {
    let secret = DScalar::random(&mut OsRng);
    let mut tuples = vec![related(secret, 3)];
    for _ in 1..5 {
        tuples.push(unrelated(3));
    }
    let signature = create_zkplmt_shuffle(&mut tuples, sc(secret));
    let result = verify_zkplmt(&tuples, &signature);
    assert_eq!(result, true);
}

#[test]
fn zkplmt_rejects_empty_and_ragged_tuples() {
    let secret = DScalar::random(&mut OsRng);
    let tuples = vec![related(secret, 2)];
    let signature = create_zkplmt(&tuples, 0, sc(secret));
    assert!(!verify_zkplmt(&[], &signature));
    let ragged = vec![related(secret, 2), unrelated(3)];
    assert!(!verify_zkplmt(&ragged, &signature));
}

#[test]
fn zkplmt_rejects_proof_for_other_tuples() {
    let secret = DScalar::random(&mut OsRng);
    let tuples = vec![unrelated(2), related(secret, 2)];
    let signature = create_zkplmt(&tuples, 1, sc(secret));
    assert!(verify_zkplmt(&tuples, &signature));
    let other = vec![unrelated(2), related(secret, 2)];
    assert!(!verify_zkplmt(&other, &signature));
}

#[test]
fn zkplmt_wrong_secret_fails() {
    let secret = DScalar::random(&mut OsRng);
    let tuples = vec![related(secret, 2), unrelated(2)];
    let wrong = DScalar::random(&mut OsRng);
    let signature = create_zkplmt(&tuples, 0, sc(wrong));
    assert!(!verify_zkplmt(&tuples, &signature));
}
