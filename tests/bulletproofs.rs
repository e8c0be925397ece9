use curve25519_dalek::edwards::{CompressedEdwardsY, EdwardsPoint};
use curve25519_dalek::scalar::Scalar as DScalar;
use rand_core::{OsRng, RngCore};
use zkplmt::bases::Bases;
use zkplmt::ipa::{create_bulletproof, fake_bullet_proof, multiscalar_mul_add, verify_bulletproof};
use zkplmt::point::{get_G, get_K, get_L, get_hash, Point};
use zkplmt::range::{
    bullet_range_proof, bullet_range_verify, create_range_or_schnorr_fake_range,
    create_range_or_schnorr_fake_schnorr, to_2s_power, verify_range_or_schnorr,
};
use zkplmt::scalar::Scalar;
use zkplmt::schnorr::{create_modified_schnorr, verify_modified_schnorr};
use zkplmt::vectors::inner_product;

fn sc(s: DScalar) -> Scalar {
    Scalar::from_canonical_bytes(s.to_bytes()).unwrap()
}

fn ds(s: &Scalar) -> DScalar {
    DScalar::from_canonical_bytes(s.to_bytes()).unwrap()
}

fn pt(p: EdwardsPoint) -> Point {
    Point::from_bytes(p.compress().to_bytes()).unwrap()
}

fn ed(p: &Point) -> EdwardsPoint {
    CompressedEdwardsY(p.to_bytes()).decompress().unwrap()
}

fn rand_scalar() -> Scalar {
    sc(DScalar::random(&mut OsRng))
}

fn bases(max_len: usize) -> Bases {
    Bases::new(get_L().unwrap(), get_K().unwrap(), max_len).unwrap()
}

#[allow(non_snake_case)]
#[test]
fn test_bullet_range_proof_with_fake_schnorr() {
    let bases = bases(20);
    let gamma = rand_scalar();
    let v = OsRng.next_u64();
    let AP_key = pt(DScalar::random(&mut OsRng) * ed(&bases.g_init()));
    let message = [0u8, 1u8, 2u8];

    let proof = create_range_or_schnorr_fake_schnorr(gamma, v, &bases, &AP_key, &message);
    assert!(verify_range_or_schnorr(&bases, &proof, &AP_key, &message));
}

#[allow(non_snake_case)]
#[test]
fn test_bullet_range_proof_with_fake_range() {
    let bases = bases(20);
    let gamma = rand_scalar();
    let v = rand_scalar();
    let AP__pr_key = DScalar::random(&mut OsRng);
    let AP_key = pt(AP__pr_key * ed(&bases.g_init()));
    let message = [0u8, 1u8, 2u8];

    let proof = create_range_or_schnorr_fake_range(gamma, v, &bases, sc(AP__pr_key), &message);
    assert!(verify_range_or_schnorr(&bases, &proof, &AP_key, &message));
}

#[test]
fn test_bullet_range_proof() {
    let bases = bases(20);
    let gamma = [rand_scalar(), rand_scalar(), rand_scalar(), rand_scalar(), rand_scalar()];
    let v = [OsRng.next_u64(), OsRng.next_u64(), OsRng.next_u64(), OsRng.next_u64(), OsRng.next_u64()];

    let proof = bullet_range_proof(&gamma, &v, &bases);
    assert!(bullet_range_verify(&proof, bases));
}

#[allow(non_snake_case)]
#[test]
fn test_bulletproof() {
    let mut ginit = get_G().unwrap();
    let mut hinit = get_K().unwrap();
    let u = get_L().unwrap();
    let mut gs = Vec::new();
    let mut hs = Vec::new();
    let mut a = Vec::new();
    let mut b = Vec::new();
    for _ in 0..16 {
        gs.push(pt(ds(&get_hash(&ginit, &hinit)) * ed(&ginit)));
        hs.push(pt(ds(&get_hash(&hinit, &ginit)) * ed(&hinit)));
        ginit = pt(ds(&get_hash(&ginit, &hinit)) * ed(&ginit));
        hinit = pt(ds(&get_hash(&hinit, &ginit)) * ed(&hinit));
        a.push(rand_scalar());
        b.push(rand_scalar());
    }

    let P = pt(ed(&multiscalar_mul_add(&a, &gs, &b, &hs)) + ds(&inner_product(&a, &b)) * ed(&u));
    let proof = create_bulletproof(16, &gs, &hs, u, &a, &b);

    let ver = verify_bulletproof(16, &gs, &hs, u, P, &proof);
    assert!(ver);
}

#[allow(non_snake_case)]
#[test]
fn test_modified_schnorr() {
    let bases = bases(2);
    let private_key = DScalar::random(&mut OsRng);
    let P = pt(ed(&bases.g_init()) * private_key);
    let e1 = bases.g_at(1);
    let e2 = bases.h_at(1);
    let extra_points = (&e1, &e2);
    let message = "hello".as_bytes();
    let other_hash = rand_scalar();
    let signature = create_modified_schnorr(&bases, &message, sc(private_key), extra_points, other_hash);
    assert!(verify_modified_schnorr(&bases, &message, &signature, &P, extra_points, other_hash));
}

#[test]
fn test_to_2s_power() {
    assert_eq!(to_2s_power(1), 1);
    assert_eq!(to_2s_power(3), 4);
    assert_eq!(to_2s_power(5), 8);
    assert_eq!(to_2s_power(8), 8);
}

#[test]
fn to_2s_power_of_zero_and_large() {
    assert_eq!(to_2s_power(0), 1);
    assert_eq!(to_2s_power(2), 2);
    assert_eq!(to_2s_power(1025), 2048);
}

#[allow(non_snake_case)]
#[test]
fn modified_schnorr_rejects_other_message_and_offset() {
    let bases = bases(1);
    let private_key = DScalar::random(&mut OsRng);
    let P = pt(ed(&bases.g_init()) * private_key);
    let e1 = bases.g_at(0);
    let e2 = bases.h_at(0);
    let other_hash = rand_scalar();
    let signature = create_modified_schnorr(&bases, b"hello", sc(private_key), (&e1, &e2), other_hash);
    assert!(verify_modified_schnorr(&bases, b"hello", &signature, &P, (&e1, &e2), other_hash));
    assert!(!verify_modified_schnorr(&bases, b"hellp", &signature, &P, (&e1, &e2), other_hash));
    assert!(!verify_modified_schnorr(&bases, b"hello", &signature, &P, (&e1, &e2), rand_scalar()));
    assert!(!verify_modified_schnorr(&bases, b"hello", &signature, &P, (&e2, &e1), other_hash));
}

#[test]
fn trivial_range_and_overflowing_value() {
    let bases = bases(1);
    let gamma = [sc(DScalar::from(42u64))];
    let v = [0u64];
    let proof = bullet_range_proof(&gamma, &v, &bases);
    assert_eq!(proof.commitments().len(), 1);
    assert!(bullet_range_verify(&proof, bases.clone()));

    let two_64 = DScalar::from(u64::MAX) + DScalar::from(1u64);
    let over = two_64 * ed(&bases.g_init()) + DScalar::from(42u64) * ed(&bases.h_init());
    let forged = proof.with_commitment(0, pt(over));
    assert!(!bullet_range_verify(&forged, bases));
}

#[test]
fn five_values_pad_to_eight_and_tao_x_is_bound() {
    let bases = bases(8);
    let mut gamma = Vec::new();
    let mut v = Vec::new();
    for _ in 0..5 {
        gamma.push(rand_scalar());
        v.push(OsRng.next_u32() as u64);
    }
    let proof = bullet_range_proof(&gamma, &v, &bases);
    assert_eq!(proof.commitments().len(), 8);
    assert_eq!(proof.inner_proof().rounds(), (9, 9));
    assert!(bullet_range_verify(&proof, bases.clone()));

    let mut bytes = proof.tao_x().to_bytes();
    bytes[0] ^= 1;
    let flipped = Scalar::from_canonical_bytes(bytes).unwrap();
    let tampered = proof.with_tao_x(flipped);
    assert!(!bullet_range_verify(&tampered, bases));
}

#[test]
fn range_proof_needs_enough_generators() {
    let big = bases(8);
    let small = bases(4);
    let gamma: Vec<Scalar> = (0..5).map(|_| rand_scalar()).collect();
    let v: Vec<u64> = (0..5).map(|i| i as u64).collect();
    let proof = bullet_range_proof(&gamma, &v, &big);
    assert!(!bullet_range_verify(&proof, small));
}

#[allow(non_snake_case)]
#[test]
fn single_bit_inner_product() {
    let bases = bases(1);
    let g = vec![bases.g_at(0), bases.g_at(1)];
    let h = vec![bases.h_at(0), bases.h_at(1)];
    let u = get_L().unwrap();
    let a: Vec<Scalar> = vec![Scalar::from_u64(1), Scalar::from_u64(2)];
    let b: Vec<Scalar> = vec![Scalar::from_u64(3), Scalar::from_u64(4)];
    assert!(inner_product(&a, &b).equals(&Scalar::from_u64(11)));
    let P = pt(ed(&multiscalar_mul_add(&a, &g, &b, &h)) + ds(&inner_product(&a, &b)) * ed(&u));
    let proof = create_bulletproof(2, &g, &h, u, &a, &b);
    assert_eq!(proof.rounds(), (1, 1));
    assert!(verify_bulletproof(2, &g, &h, u, P, &proof));

    let swapped: Vec<Scalar> = vec![Scalar::from_u64(2), Scalar::from_u64(1)];
    let wrong = create_bulletproof(2, &g, &h, u, &swapped, &b);
    assert!(!verify_bulletproof(2, &g, &h, u, P, &wrong));
}

#[allow(non_snake_case)]
#[test]
fn inner_product_rejects_malformed_proofs() {
    let bases = bases(1);
    let g = vec![bases.g_at(0), bases.g_at(1)];
    let h = vec![bases.h_at(0), bases.h_at(1)];
    let u = get_L().unwrap();
    let P = get_G().unwrap();
    assert!(!verify_bulletproof(2, &g, &h, u, P, &fake_bullet_proof()));
    assert!(!verify_bulletproof(3, &g, &h, u, P, &fake_bullet_proof()));
}

#[test]
fn bases_are_deterministic() {
    let a = bases(2);
    let b = bases(2);
    assert_eq!(a.len(), 128);
    for i in 0..128 {
        assert!(a.g_at(i) == b.g_at(i));
        assert!(a.h_at(i) == b.h_at(i));
    }
    assert!(Bases::new(get_L().unwrap(), get_K().unwrap(), 0).is_none());
}

#[test]
fn bases_follow_the_hash_chain() {
    let g0 = get_L().unwrap();
    let h0 = get_K().unwrap();
    let b = Bases::new(g0, h0, 1).unwrap();
    let g1 = pt(ds(&get_hash(&g0, &h0)) * ed(&g0));
    let h1 = pt(ds(&get_hash(&h0, &g0)) * ed(&h0));
    assert!(b.g_at(0) == g1);
    assert!(b.h_at(0) == h1);
    let g2 = pt(ds(&get_hash(&g1, &h1)) * ed(&g1));
    let h2 = pt(ds(&get_hash(&h1, &g1)) * ed(&h1));
    assert!(b.g_at(1) == g2);
    assert!(b.h_at(1) == h2);
}

#[allow(non_snake_case)]
#[test]
fn range_or_schnorr_rejects_wrong_key() {
    let bases = bases(1);
    let AP_key = pt(DScalar::random(&mut OsRng) * ed(&bases.g_init()));
    let other_key = pt(DScalar::random(&mut OsRng) * ed(&bases.g_init()));
    let proof = create_range_or_schnorr_fake_schnorr(rand_scalar(), 5, &bases, &AP_key, b"m");
    assert!(verify_range_or_schnorr(&bases, &proof, &AP_key, b"m"));
    assert!(!verify_range_or_schnorr(&bases, &proof, &other_key, b"m"));
    assert!(!verify_range_or_schnorr(&bases, &proof, &AP_key, b"n"));
}
