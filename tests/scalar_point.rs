use curve25519_dalek::constants::ED25519_BASEPOINT_POINT;
use curve25519_dalek::edwards::{CompressedEdwardsY, EdwardsPoint};
use curve25519_dalek::scalar::Scalar as DScalar;
use curve25519_dalek::traits::Identity;
use rand_core::OsRng;
use sha2::{Digest, Sha256};
use zkplmt::dlog::discrete_log_2n_bit;
use zkplmt::point::{
    get_G, get_K, get_L, get_hash, get_hash_of_data_and_points, hash_to_edwards, lin_comb, sum_points, CurveVector,
    Point, VectorTuple,
};
use zkplmt::scalar::{sum_scalars, Scalar};
use zkplmt::vectors::{inner_product, to_the_n};

fn sc(s: DScalar) -> Scalar {
    Scalar::from_canonical_bytes(s.to_bytes()).unwrap()
}

fn pt(p: EdwardsPoint) -> Point {
    Point::from_bytes(p.compress().to_bytes()).unwrap()
}

fn ed(p: &Point) -> EdwardsPoint {
    CompressedEdwardsY(p.to_bytes()).decompress().unwrap()
}

#[test]
fn canonical_bytes_are_checked() {
    assert!(Scalar::from_canonical_bytes([0xffu8; 32]).is_none());
    let s = Scalar::from_canonical_bytes([7u8; 32]).unwrap();
    assert_eq!(s.to_bytes(), [7u8; 32]);
}

#[test]
fn sums_and_inner_products() {
    let a = vec![Scalar::from_u64(2), Scalar::from_u64(3)];
    let b = vec![Scalar::from_u64(4), Scalar::from_u64(5)];
    assert_eq!(inner_product(&a, &b), Scalar::from_u64(23));
    assert_eq!(sum_scalars(&a), Scalar::from_u64(5));
    let minus_one = sc(-DScalar::one());
    assert_eq!(sum_scalars(&[minus_one, Scalar::from_u64(3)]), Scalar::from_u64(2));
}

#[test]
fn powers_reduce_mod_order() {
    let p = to_the_n(Scalar::from_u64(3), 4);
    assert_eq!(p, vec![Scalar::from_u64(1), Scalar::from_u64(3), Scalar::from_u64(9), Scalar::from_u64(27)]);
    let big = DScalar::random(&mut OsRng);
    let q = to_the_n(sc(big), 3);
    assert_eq!(q[2], sc(big * big));
}

#[test]
fn point_operations_match_the_curve() {
    let b = ED25519_BASEPOINT_POINT;
    let x = DScalar::random(&mut OsRng);
    let y = DScalar::random(&mut OsRng);
    let pb = pt(b);
    let px = pt(x * b);
    assert_eq!(lin_comb(&sc(x), &pb, &sc(y), &px), pt(x * b + y * (x * b)));
    assert_eq!(sum_points(&[pb, px, pb]), pt(b + x * b + b));
    assert_eq!(sum_points(&[]), pt(EdwardsPoint::identity()));
    assert_eq!(sum_points(&[]).to_bytes()[0], 1);
}

#[test]
fn hashes_follow_sha256() {
    let g = get_G().unwrap();
    let k = get_K().unwrap();
    let mut h = Sha256::new();
    h.input(&g.to_bytes());
    h.input(&k.to_bytes());
    let mut d = [0u8; 32];
    d.copy_from_slice(h.result().as_slice());
    assert_eq!(get_hash(&g, &k), sc(DScalar::from_bytes_mod_order(d)));
    assert!(get_hash(&g, &k) != get_hash(&k, &g));

    let mut h = Sha256::new();
    h.input(b"msg");
    h.input(&g.to_bytes());
    h.input(&k.to_bytes());
    let mut d = [0u8; 32];
    d.copy_from_slice(h.result().as_slice());
    assert_eq!(get_hash_of_data_and_points(b"msg", &[g, k]), sc(DScalar::from_bytes_mod_order(d)));
}

#[test]
fn hash_to_edwards_is_deterministic_and_in_subgroup() {
    let a = hash_to_edwards(b"XAND").unwrap();
    assert_eq!(a, get_G().unwrap());
    assert_eq!(hash_to_edwards(b"XAND").unwrap(), a);
    let e = ed(&a);
    assert!(e.is_torsion_free());
    assert!(e != EdwardsPoint::identity());
    assert!(get_G().unwrap() != get_K().unwrap());
    assert!(get_K().unwrap() != get_L().unwrap());
}

#[test]
fn hash_to_edwards_matches_the_construction() {
    let input = b"Systems";
    let source = Sha256::digest(input);
    let mut bytes = input.to_vec();
    let expected = loop {
        bytes.push(0);
        let h = Sha256::digest(&bytes);
        let mut c = [0u8; 32];
        for i in 0..32 {
            c[i] = h[i] ^ source[i];
        }
        if let Some(p) = CompressedEdwardsY(c).decompress() {
            let q = DScalar::from(8u64) * p;
            if q != EdwardsPoint::identity() {
                break q;
            }
        }
    };
    assert_eq!(get_L().unwrap(), pt(expected));
}

#[allow(non_snake_case)]
#[test]
fn discrete_log_recovers_small_values() {
    let G = get_G().unwrap();
    for x in [0u64, 1, 15, 16, 0xa7, 0xff] {
        let H = pt(DScalar::from(x) * ed(&G));
        assert_eq!(discrete_log_2n_bit(4, G, H), x);
    }
    let H = pt(DScalar::from(0x1234u64) * ed(&G));
    assert_eq!(discrete_log_2n_bit(4, G, H), 0);
}

#[test]
fn tuple_bytes_are_pairs_in_order() {
    let g = get_G().unwrap();
    let k = get_K().unwrap();
    let t = VectorTuple { values: vec![CurveVector { x: g, y: k }, CurveVector { x: k, y: g }] };
    assert_eq!(t.size(), 128);
    let mut buf = [9u8; 130];
    t.fill_bytes(&mut buf);
    assert_eq!(&buf[0..32], &g.to_bytes());
    assert_eq!(&buf[32..64], &k.to_bytes());
    assert_eq!(&buf[64..96], &k.to_bytes());
    assert_eq!(&buf[96..128], &g.to_bytes());
    assert_eq!(&buf[128..130], &[9u8, 9u8]);
    let mut one = [0u8; 64];
    CurveVector { x: k, y: g }.fill_bytes(&mut one);
    assert_eq!(&one[0..32], &k.to_bytes());
}
