use bn254_rs::field::{limbs_lt, parse_decimal_limbs};
use bn254_rs::{fr_to_be_bytes, Fq, Fr};

const P: &str = "21888242871839275222246405745257275088696311157297823662689037894645226208583";
const P_MINUS_1: &str =
    "21888242871839275222246405745257275088696311157297823662689037894645226208582";
const R: &str = "21888242871839275222246405745257275088548364400416034343698204186575808495617";
const R_MINUS_1: &str =
    "21888242871839275222246405745257275088548364400416034343698204186575808495616";

#[test]
fn decimal_round_trip_for_base_field() {
    for s in ["0", "1", "2", "10", "18446744073709551616", P_MINUS_1] {
        let x = Fq::from_decimal(s).unwrap();
        assert_eq!(x.to_decimal(), s);
        assert_eq!(Fq::from_decimal(&x.to_decimal()).unwrap(), x);
    }
}

#[test]
fn decimal_round_trip_for_scalar_field() {
    for s in ["0", "7", R_MINUS_1] {
        let x = Fr::from_decimal(s).unwrap();
        assert_eq!(x.to_decimal(), s);
        assert_eq!(Fr::from_decimal(&x.to_decimal()).unwrap(), x);
    }
}

#[test]
fn decimal_values_land_in_the_right_limbs() {
    let x = Fq::from_decimal("18446744073709551617").unwrap();
    assert_eq!(x.limbs, [1, 1, 0, 0]);
    assert_eq!(Fq::from_decimal("255").unwrap().limbs, [255, 0, 0, 0]);
}

#[test]
fn out_of_range_decimals_are_rejected_not_reduced() {
    assert!(Fq::from_decimal(P).is_err());
    assert!(Fr::from_decimal(R).is_err());
    assert!(Fr::from_decimal(P_MINUS_1).is_err());
    assert!(Fq::from_decimal(R).is_ok());
    let huge = "1".repeat(100);
    assert!(Fq::from_decimal(&huge).is_err());
}

#[test]
fn malformed_decimals_are_rejected() {
    for s in ["", "-1", "+1", "01", "00", "1a", " 1", "1 ", "0x10", "\u{0661}"] {
        assert!(Fq::from_decimal(s).is_err(), "accepted {:?}", s);
        assert!(Fr::from_decimal(s).is_err(), "accepted {:?}", s);
    }
}

#[test]
fn big_endian_encoding_is_32_bytes_left_padded() {
    let one = Fr::from_u64(1);
    let b = fr_to_be_bytes(&one);
    let mut expected = [0u8; 32];
    expected[31] = 1;
    assert_eq!(b, expected);
    assert_eq!(fr_to_be_bytes(&Fr::from_u64(0)), [0u8; 32]);
    let v = Fr::from_u64(0x0102030405060708);
    let b = fr_to_be_bytes(&v);
    assert_eq!(&b[24..], &[1, 2, 3, 4, 5, 6, 7, 8]);
    assert_eq!(&b[..24], &[0u8; 24]);
}

#[test]
fn big_endian_encoding_of_largest_scalar() {
    let top = Fr::from_decimal(R_MINUS_1).unwrap();
    let b = top.to_be_bytes();
    assert_eq!(b.len(), 32);
    assert_eq!(b[0], 0x30);
    assert_eq!(b[1], 0x64);
    assert_eq!(b[31], 0x00);
    let q = Fq::from_decimal(P_MINUS_1).unwrap().to_be_bytes();
    assert_eq!(q[0], 0x30);
    assert_eq!(q[31], 0x46);
}

#[test]
fn limb_comparison_orders_numbers() {
    assert!(limbs_lt(&[5, 0, 0, 0], &[0, 1, 0, 0]));
    assert!(!limbs_lt(&[0, 1, 0, 0], &[5, 0, 0, 0]));
    assert!(!limbs_lt(&[3, 3, 3, 3], &[3, 3, 3, 3]));
    assert!(limbs_lt(&[u64::MAX, u64::MAX, u64::MAX, 1], &[0, 0, 0, 2]));
}

#[test]
fn parse_against_a_small_modulus() {
    assert_eq!(parse_decimal_limbs("99", &[100, 0, 0, 0]), Some([99, 0, 0, 0]));
    assert_eq!(parse_decimal_limbs("100", &[100, 0, 0, 0]), None);
}

#[test]
fn is_zero_on_field_elements() {
    assert!(Fq::zero().is_zero());
    assert!(!Fq::from_decimal("1").unwrap().is_zero());
    assert!(Fr::from_u64(0).is_zero());
    assert!(!Fr::from_u64(1).is_zero());
}

#[test]
fn hex_decoding_reduces_modulo_the_group_order() {
    assert_eq!(Fr::from_hex_mod_order("0x01").unwrap(), Fr::from_u64(1));
    assert_eq!(Fr::from_hex_mod_order("ff").unwrap(), Fr::from_u64(255));
    assert_eq!(Fr::from_hex_mod_order("0XaB").unwrap(), Fr::from_u64(0xab));
    let r_hex = "0x30644e72e131a029b85045b68181585d2833e84879b9709143e1f593f0000001";
    assert_eq!(Fr::from_hex_mod_order(r_hex).unwrap(), Fr::from_u64(0));
    let r_plus_5 = "30644e72e131a029b85045b68181585d2833e84879b9709143e1f593f0000006";
    assert_eq!(Fr::from_hex_mod_order(r_plus_5).unwrap(), Fr::from_u64(5));
    let all_ones = format!("0x{}", "f".repeat(64));
    assert_eq!(
        Fr::from_hex_mod_order(&all_ones).unwrap().to_decimal(),
        "6350874878119819312338956282401532410528162663560392320966563075034087161850"
    );
}

#[test]
fn malformed_hex_is_rejected() {
    let too_long = "1".repeat(65);
    for s in ["", "0x", "0xg", "x12", "0x 1", "-1", too_long.as_str()] {
        assert!(Fr::from_hex_mod_order(s).is_err(), "accepted {:?}", s);
    }
    assert!(Fr::from_hex_mod_order(&"1".repeat(64)).is_ok());
    assert_eq!(Fr::from_hex_mod_order("0").unwrap(), Fr::from_u64(0));
}
