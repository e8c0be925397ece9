use curve25519_dalek::edwards::{CompressedEdwardsY, EdwardsPoint};
use curve25519_dalek::scalar::Scalar as DScalar;
use rand_core::OsRng;
use zkplmt::kyc_proof::{create_kyc, verify_kyc};
use zkplmt::point::{get_random_curve_point, CurveVector, Point};
use zkplmt::scalar::Scalar;

fn sc(s: DScalar) -> Scalar {
    Scalar::from_canonical_bytes(s.to_bytes()).unwrap()
}

fn ds(s: &Scalar) -> DScalar {
    DScalar::from_canonical_bytes(s.to_bytes()).unwrap()
}

fn pt(p: EdwardsPoint) -> Point {
    Point::from_bytes(p.compress().to_bytes()).unwrap()
}

fn ed(p: &Point) -> EdwardsPoint {
    CompressedEdwardsY(p.to_bytes()).decompress().unwrap()
}

fn rand_point() -> Point {
    get_random_curve_point().unwrap()
}

#[allow(non_snake_case)]
fn kyc_case(tag_for_verify: Option<Point>) -> bool {
    let secret = DScalar::random(&mut OsRng);
    let mut sources = Vec::new();
    for _ in 0..3 {
        sources.push(CurveVector { x: rand_point(), y: rand_point() });
    }
    let base = rand_point();
    sources.push(CurveVector { x: base, y: pt(secret * ed(&base)) });
    let mut ap_bases = vec![rand_point(), rand_point(), rand_point()];
    let T = rand_point();
    let (s, proof) = create_kyc(sources.clone(), 3, &mut ap_bases, T, sc(secret)).unwrap();
    assert!(proof.new_public_key().x == Point::from_bytes(proof.new_public_key().x.to_bytes()).unwrap());
    let keys = proof.recoverable_keys();
    let Sa = pt(ds(&s) * ed(&keys.x));
    let U = pt(ds(&s) * ed(&keys.y));
    let sources_S = vec![Sa; sources.len()];
    verify_kyc(sources, sources_S, &mut ap_bases, tag_for_verify.unwrap_or(T), proof, U)
}

#[test]
fn kyc_proof_verifies() {
    assert!(kyc_case(None));
}

#[test]
fn kyc_proof_fails_for_other_tag() {
    assert!(!kyc_case(Some(rand_point())));
}
