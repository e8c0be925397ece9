use curve25519_dalek::edwards::{CompressedEdwardsY, EdwardsPoint};
use curve25519_dalek::scalar::Scalar as DScalar;
use rand_core::{OsRng, RngCore};
use zkplmt::bases::Bases;
use zkplmt::point::{get_G, get_L, get_hash, get_random_curve_point, Point};
use zkplmt::scalar::Scalar;
use zkplmt::transaction::{
    create_transaction, generate_starting_KYC_proof, verify_transaction, Transaction, TransactionInputSet,
    TransactionOutput,
};

fn sc(s: DScalar) -> Scalar {
    Scalar::from_canonical_bytes(s.to_bytes()).unwrap()
}

fn ds(s: &Scalar) -> DScalar {
    DScalar::from_canonical_bytes(s.to_bytes()).unwrap()
}

fn pt(p: EdwardsPoint) -> Point {
    Point::from_bytes(p.compress().to_bytes()).unwrap()
}

fn ed(p: &Point) -> EdwardsPoint {
    CompressedEdwardsY(p.to_bytes()).decompress().unwrap()
}

fn rand_point() -> Point {
    get_random_curve_point().unwrap()
}

#[allow(non_snake_case)]
fn build_transaction_with_key() -> (Transaction, Bases, DScalar) {
    let ginit = get_G().unwrap();
    let G = ed(&get_G().unwrap());
    let L = ed(&get_L().unwrap());
    let p = DScalar::random(&mut OsRng);

    let n = 5;
    let ri: Vec<DScalar> = (0..n).map(|_| DScalar::random(&mut OsRng)).collect();

    let vi: Vec<u64> = (0..n).map(|_| OsRng.next_u32() as u64).collect();
    assert_eq!(vi.len(), n);
    let mut vo: Vec<u64> = vi.iter().map(|v| v - 2u64).collect();
    vo[0] = vi[0] + (2u64 * (n - 1) as u64);

    let sum_vi = vi.iter().fold(0, |x, y| x + y);
    let sum_vo = vo.iter().fold(0, |x, y| x + y);

    assert_eq!(sum_vi, sum_vo);

    let mut input_bases = Vec::new();
    for _ in 0..n {
        input_bases.push(ds(&get_hash(&ginit, &ginit)) * ed(&ginit));
    }

    let input_components: Vec<TransactionOutput> = input_bases
        .iter()
        .zip(ri.iter().zip(vi.iter()))
        .map(|(base, (r, v))| {
            let key = p * base;
            TransactionOutput { public_key: (pt(*base), pt(key)), commitment: pt(r * G + DScalar::from(*v) * L) }
        })
        .collect();

    let mut inputs = Vec::new();
    inputs.push(TransactionInputSet { components: input_components });
    let m = 5;
    for _ in 0..(m - 1) {
        let input_components: Vec<TransactionOutput> = (0..n)
            .map(|_| TransactionOutput { public_key: (rand_point(), rand_point()), commitment: rand_point() })
            .collect();
        inputs.push(TransactionInputSet { components: input_components });
    }

    let mut output_pub_keys: Vec<(Point, Point)> = (0..n).map(|_| (rand_point(), rand_point())).collect();
    let A_ = rand_point();
    let B_ = pt(p * ed(&A_));
    output_pub_keys[0] = (A_, B_);

    let AP_public_key = rand_point();

    let bases = Bases::new(get_L().unwrap(), get_G().unwrap(), 20).unwrap();

    let mut kyc_sources = vec![generate_starting_KYC_proof(sc(p)).unwrap()];
    for _ in 0..5 {
        let t = DScalar::random(&mut OsRng);
        kyc_sources.push(generate_starting_KYC_proof(sc(t)).unwrap());
    }
    let ri: Vec<Scalar> = ri.into_iter().map(sc).collect();
    let transaction =
        create_transaction(inputs, ri, vo, output_pub_keys, sc(p), AP_public_key, kyc_sources, bases.clone())
            .unwrap();
    (transaction, bases, p)
}

fn build_transaction() -> (Transaction, Bases) {
    let (t, b, _) = build_transaction_with_key();
    (t, b)
}

#[test]
fn test_transaction() {
    let (transaction, bases) = build_transaction();
    assert!(verify_transaction(&transaction, bases));
}

#[test]
fn transaction_with_changed_output_fails() {
    let (transaction, bases) = build_transaction();
    assert!(verify_transaction(&transaction, bases.clone()));
    let first = transaction.outputs()[0];
    let changed = transaction.with_output(0, TransactionOutput::new(rand_point(), first.public_key));
    assert!(!verify_transaction(&changed, bases));
}

#[test]
fn transaction_with_changed_later_output_fails() {
    let (transaction, bases) = build_transaction();
    let third = transaction.outputs()[3];
    let moved = pt(ed(&third.commitment) + ed(&get_G().unwrap()));
    let changed = transaction.with_output(3, TransactionOutput::new(moved, third.public_key));
    assert!(!verify_transaction(&changed, bases));
}

#[test]
fn transaction_with_link_lacking_proofs_fails() {
    let (mut transaction, bases, p) = build_transaction_with_key();
    assert!(verify_transaction(&transaction, bases.clone()));
    transaction.spendingLimitProof = generate_starting_KYC_proof(sc(p)).unwrap();
    assert!(!verify_transaction(&transaction, bases));
}
