use bn254_rs::{g1_add, g1_generator, g1_negate, g1_scalar_mul, Fq, Fr, G1Point};

fn dec(s: &str) -> Fq {
    Fq::from_decimal(s).unwrap()
}

#[test]
fn scalar_mul_matches_repeated_addition() {
    let g = G1Point::generator();
    let mut acc = G1Point::identity();
    for k in 0u64..6 {
        assert_eq!(g.scalar_mul(Fr::from_u64(k)), acc);
        acc = acc.add(&g);
    }
}

#[test]
fn scalar_mul_by_one_is_the_point() {
    let g = G1Point::generator();
    assert_eq!(g.scalar_mul(Fr::from_u64(1)), g);
}

#[test]
fn doubling_generator_gives_known_point() {
    let d = G1Point::generator().add(&G1Point::generator());
    assert_eq!(
        d.x,
        dec("1368015179489954701390400359078579693043519447331113978918064868415326638035")
    );
    assert_eq!(
        d.y,
        dec("9918110051302171585080402603319702774565515993150576347155970296011118125764")
    );
    assert!(!d.is_identity());
}

#[test]
fn three_times_generator_gives_known_point() {
    let t = G1Point::generator().scalar_mul(Fr::from_u64(3));
    assert_eq!(
        t.x,
        dec("3353031288059533942658390886683067124040920775575537747144343083137631628272")
    );
    assert_eq!(
        t.y,
        dec("19321533766552368860946552437480515441416830039777911637913418824951667761761")
    );
}

#[test]
fn zero_scalar_gives_identity() {
    let g = G1Point::generator();
    let z = g.scalar_mul(Fr::from_u64(0));
    assert!(z.is_identity());
    assert!(z.x.is_zero() && z.y.is_zero());
    assert_eq!(G1Point::identity().scalar_mul(Fr::from_u64(0)), G1Point::identity());
    assert_eq!(G1Point::identity().scalar_mul(Fr::from_u64(7)), G1Point::identity());
}

#[test]
fn negate_twice_is_identity_map() {
    let g = G1Point::generator();
    let n = g.negate();
    assert_eq!(
        n.y,
        dec("21888242871839275222246405745257275088696311157297823662689037894645226208581")
    );
    assert_eq!(n.x, g.x);
    assert_eq!(n.negate(), g);
    let id = G1Point::identity();
    assert_eq!(id.negate(), id);
}

#[test]
fn point_plus_negation_is_identity() {
    let p = G1Point::generator().scalar_mul(Fr::from_u64(5));
    assert!(p.add(&p.negate()).is_identity());
    assert_eq!(p.add(&G1Point::identity()), p);
    assert_eq!(G1Point::identity().add(&p), p);
}

#[test]
fn addition_commutes_on_examples() {
    let a = G1Point::generator();
    let b = a.scalar_mul(Fr::from_u64(9));
    assert_eq!(a.add(&b), b.add(&a));
}

#[test]
fn free_functions_match_methods() {
    let g = g1_generator();
    assert_eq!(g, G1Point::generator());
    assert_eq!(g1_negate(g), g.negate());
    assert_eq!(g1_add(g, g), g.add(&g));
    assert_eq!(g1_scalar_mul(g, Fr::from_u64(3)), g.scalar_mul(Fr::from_u64(3)));
}

#[test]
fn from_coordinates_checks_the_curve() {
    let id = G1Point::from_coordinates(Fq::zero(), Fq::zero()).unwrap();
    assert!(id.is_identity());
    let g = G1Point::from_coordinates(dec("1"), dec("2")).unwrap();
    assert_eq!(g, G1Point::generator());
    assert!(G1Point::from_coordinates(dec("1"), dec("1")).is_err());
    assert!(G1Point::from_coordinates(dec("0"), dec("2")).is_err());
}
