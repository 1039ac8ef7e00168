use bn254_rs::web::handlers::{scalar_mul, sign, ServiceError};
use bn254_rs::web::models::{Coordinate, KeyPair, PointError};
use bn254_rs::web::models::{G1Point as G1Strings, G2Point as G2Strings};
use bn254_rs::web::models::{ScalarMulRequest, SignRequest};
use bn254_rs::web::store::Store;
use bn254_rs::{pairing_check, Fq, Fr, G1Point, G2Point};

const R_MINUS_1: &str =
    "21888242871839275222246405745257275088548364400416034343698204186575808495616";

fn strings_of(p: &G1Point) -> G1Strings {
    G1Strings { x: p.x.to_decimal(), y: p.y.to_decimal() }
}

fn g2_strings_of(p: &G2Point) -> G2Strings {
    G2Strings {
        x_a: p.x.c1.to_decimal(),
        x_b: p.x.c0.to_decimal(),
        y_a: p.y.c1.to_decimal(),
        y_b: p.y.c0.to_decimal(),
    }
}

fn key_pair(address: &str, private_key: &str, g1: &G1Point, g2: &G2Point) -> KeyPair {
    KeyPair {
        eoa_address: address.to_string(),
        private_key: private_key.to_string(),
        public_key_g1: strings_of(g1),
        public_key_g2: g2_strings_of(g2),
    }
}

/// An identity whose scalar is `r - 1`, so that its public keys are the
/// negated generators.
fn store() -> Store {
    let g1 = G1Point::generator();
    let g2 = G2Point::generator();
    let three = g1.scalar_mul(Fr::from_u64(3));
    Store::new(vec![
        key_pair("0xminus", R_MINUS_1, &g1.negate(), &g2.negate()),
        key_pair("0xthree", "3", &three, &g2),
        key_pair("0xbroken", "not a number", &g1, &g2),
    ])
}

fn message() -> G1Point {
    G1Point::generator().scalar_mul(Fr::from_u64(11))
}

fn sign_request(address: &str, x: &str, y: &str) -> SignRequest {
    SignRequest { eoa_address: address.to_string(), point_x: x.to_string(), point_y: y.to_string() }
}

#[test]
fn signing_returns_scalar_times_message_and_verifies() {
    let s = store();
    let h = message();
    let req = sign_request("0xminus", &h.x.to_decimal(), &h.y.to_decimal());
    let resp = sign(&s, &req).unwrap();
    let expected = h.scalar_mul(Fr::from_decimal(R_MINUS_1).unwrap());
    assert_eq!(resp.product.x, expected.x.to_decimal());
    assert_eq!(resp.product.y, expected.y.to_decimal());
    assert_eq!(expected, h.negate());
    assert_eq!(resp.signer_g1.x, "1");
    let neg_g2 = G2Point::generator().negate();
    assert_eq!(resp.signer_g2.x_a, neg_g2.x.c1.to_decimal());
    assert_eq!(resp.signer_g2.y_b, neg_g2.y.c0.to_decimal());

    let signature = resp.product.to_g1_point().unwrap();
    let public_g2 = s.get_key_pair("0xminus").unwrap().public_key_g2.to_g2_point().unwrap();
    assert!(pairing_check(signature, G2Point::generator(), h.negate(), public_g2));
    assert!(!pairing_check(signature, G2Point::generator(), h, public_g2));
}

#[test]
fn scalar_mul_by_three_matches_library() {
    let s = store();
    let h = message();
    let req = ScalarMulRequest {
        eoa_address: "0xthree".to_string(),
        hash_x: h.x.to_decimal(),
        hash_y: h.y.to_decimal(),
    };
    let resp = scalar_mul(&s, &req).unwrap();
    let expected = G1Point::generator().scalar_mul(Fr::from_u64(33));
    assert_eq!(resp.signature.x, expected.x.to_decimal());
    assert_eq!(resp.signature.y, expected.y.to_decimal());
    let three = G1Point::generator().scalar_mul(Fr::from_u64(3));
    assert_eq!(resp.g1.x, three.x.to_decimal());
    assert_eq!(resp.g2.x_a, G2Point::generator().x.c1.to_decimal());
    assert_eq!(resp.g2.y_b, G2Point::generator().y.c0.to_decimal());
}

#[test]
fn signing_the_zero_point_gives_identity() {
    let s = store();
    let resp = sign(&s, &sign_request("0xthree", "0", "0")).unwrap();
    assert_eq!(resp.product.x, "0");
    assert_eq!(resp.product.y, "0");
    assert!(resp.product.to_g1_point().unwrap().is_identity());
}

#[test]
fn unknown_identity_is_not_found() {
    let s = store();
    assert_eq!(sign(&s, &sign_request("0xnobody", "1", "2")).err(), Some(ServiceError::NotFound));
}

#[test]
fn unparsable_coordinates_are_bad_requests() {
    let s = store();
    let p = "21888242871839275222246405745257275088696311157297823662689037894645226208583";
    for (x, y) in [("abc", "2"), ("1", ""), (p, "2"), ("01", "2")] {
        assert_eq!(sign(&s, &sign_request("0xthree", x, y)).err(), Some(ServiceError::BadRequest));
    }
}

#[test]
fn off_curve_message_is_a_curve_violation() {
    let s = store();
    assert_eq!(
        sign(&s, &sign_request("0xthree", "1", "1")).err(),
        Some(ServiceError::CurveViolation)
    );
    let req = ScalarMulRequest {
        eoa_address: "0xthree".to_string(),
        hash_x: "0".to_string(),
        hash_y: "2".to_string(),
    };
    assert_eq!(scalar_mul(&s, &req).err(), Some(ServiceError::CurveViolation));
}

#[test]
fn corrupt_private_key_is_an_internal_fault() {
    let s = store();
    assert_eq!(
        sign(&s, &sign_request("0xbroken", "1", "2")).err(),
        Some(ServiceError::InternalFault)
    );
}

#[test]
fn lookup_comes_before_parsing() {
    let s = store();
    assert_eq!(sign(&s, &sign_request("0xnobody", "x", "y")).err(), Some(ServiceError::NotFound));
    assert_eq!(
        sign(&s, &sign_request("0xbroken", "x", "2")).err(),
        Some(ServiceError::BadRequest)
    );
}

#[test]
fn later_record_with_same_address_wins() {
    let g1 = G1Point::generator();
    let g2 = G2Point::generator();
    let s = Store::new(vec![
        key_pair("0xa", "1", &g1, &g2),
        key_pair("0xb", "2", &g1, &g2),
        key_pair("0xa", "5", &g1, &g2),
    ]);
    assert_eq!(s.get_key_pair("0xa").unwrap().private_key, "5");
    assert_eq!(s.get_key_pair("0xb").unwrap().private_key, "2");
    assert!(s.get_key_pair("0xc").is_none());
    let all = s.list_key_pairs();
    assert_eq!(all.len(), 2);
    let mut keys: Vec<&str> = all.iter().map(|k| k.private_key.as_str()).collect();
    keys.sort();
    assert_eq!(keys, vec!["2", "5"]);
}

#[test]
fn empty_store_finds_nothing() {
    let s = Store::new(Vec::new());
    assert!(s.get_key_pair("").is_none());
    assert!(s.list_key_pairs().is_empty());
}

#[test]
fn model_points_parse_and_check() {
    let g = G1Point::generator();
    assert_eq!(strings_of(&g).to_g1_point().unwrap(), g);
    let bad = G1Strings { x: "1".to_string(), y: "zz".to_string() };
    assert_eq!(bad.to_g1_point().err(), Some(PointError::Parse(Coordinate::Y)));
    let bad_x = G1Strings { x: "".to_string(), y: "zz".to_string() };
    assert_eq!(bad_x.to_g1_point().err(), Some(PointError::Parse(Coordinate::X)));
    let off = G1Strings { x: "1".to_string(), y: "1".to_string() };
    assert_eq!(off.to_g1_point().err(), Some(PointError::Curve));
    let g2 = G2Point::generator();
    assert_eq!(g2_strings_of(&g2).to_g2_point().unwrap(), g2);
    let mut swapped = g2_strings_of(&g2);
    std::mem::swap(&mut swapped.x_a, &mut swapped.x_b);
    std::mem::swap(&mut swapped.y_a, &mut swapped.y_b);
    assert_eq!(swapped.to_g2_point().err(), Some(PointError::Curve));
    let mut broken = g2_strings_of(&g2);
    broken.y_b = String::new();
    assert_eq!(broken.to_g2_point().err(), Some(PointError::Parse(Coordinate::YB)));
    broken.x_b = "x".to_string();
    assert_eq!(broken.to_g2_point().err(), Some(PointError::Parse(Coordinate::XB)));
}

#[test]
fn private_key_parses_without_reduction() {
    let g1 = G1Point::generator();
    let g2 = G2Point::generator();
    assert_eq!(key_pair("a", "42", &g1, &g2).to_private_key().unwrap(), Fr::from_u64(42));
    let r = "21888242871839275222246405745257275088548364400416034343698204186575808495617";
    assert!(key_pair("a", r, &g1, &g2).to_private_key().is_err());
    assert!(Fq::from_decimal(r).is_ok());
}

#[test]
fn stored_g2_pairs_are_read_imaginary_part_first() {
    let g2 = G2Point::generator();
    let stored = G2Strings {
        x_a: "11559732032986387107991004021392285783925812861821192530917403151452391805634"
            .to_string(),
        x_b: "10857046999023057135944570762232829481370756359578518086990519993285655852781"
            .to_string(),
        y_a: "4082367875863433681332203403145435568316851327593401208105741076214120093531"
            .to_string(),
        y_b: "8495653923123431417604973247489272438418190587263600148770280649306958101930"
            .to_string(),
    };
    let q = stored.to_g2_point().unwrap();
    assert_eq!(q, g2);
    assert_eq!(q.x.c0.to_decimal(), stored.x_b);
    assert_eq!(q.x.c1.to_decimal(), stored.x_a);
    let zeros = G2Strings {
        x_a: "0".to_string(),
        x_b: "0".to_string(),
        y_a: "0".to_string(),
        y_b: "0".to_string(),
    };
    assert_eq!(zeros.to_g2_point().unwrap(), G2Point::identity());
}
