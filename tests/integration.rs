use bn254_rs::{hash_g1_point, pairing_check, Fr, G1Point, G2Point};

fn hex(bytes: &[u8]) -> String {
    bytes.iter().map(|b| format!("{:02x}", b)).collect()
}

#[test]
fn test_g1_scalar_mul_vs_add() {
    let g = G1Point::generator();
    let double = g.add(&g);
    let s2 = g.scalar_mul(Fr::from_u64(2));
    assert_eq!(double, s2);
}

#[test]
fn test_pairing_identity() {
    let g1 = G1Point::generator();
    let g2 = G2Point::generator();
    let neg = g1.negate();

    let result = pairing_check(g1, g2, neg, g2);
    assert!(result);
}

#[test]
fn test_hash_g1_point() {
    let g = G1Point::generator();
    let hash = hash_g1_point(&g);
    println!("hash: 0x{}", hex(&hash));
    assert_eq!(
        hex(&hash),
        "e90b7bceb6e7df5418fb78d8ee546e97c83a08bbccc01a0644d599ccd2a7c2e0"
    );
}

#[test]
fn generator_doubled_twice_is_four_times_generator() {
    let g = G1Point::generator();
    let two = g.add(&g);
    let four = two.add(&two);
    assert_eq!(four, g.scalar_mul(Fr::from_u64(4)));
    assert_eq!(
        four.x.to_decimal(),
        "3010198690406615200373504922352659861758983907867017329644089018310584441462"
    );
    assert_eq!(
        four.y.to_decimal(),
        "4027184618003122424972590350825261965929648733675738730716654005365300998076"
    );
}

#[test]
fn hash_of_generator_is_repeatable() {
    let g = G1Point::generator();
    assert_eq!(hash_g1_point(&g), hash_g1_point(&G1Point::generator()));
    assert_eq!(hash_g1_point(&g), hash_g1_point(&g));
}

#[test]
fn hash_of_identity_is_hash_of_64_zero_bytes() {
    let id = G1Point::identity();
    assert_eq!(
        hex(&hash_g1_point(&id)),
        "ad3228b676f7d3cd4284a5443f17f1962b36e491b30a40b2405849e597ba5fb5"
    );
}
