use payment_engine::numeric::{parse_amount, parse_u16, parse_u32};

#[test]
fn amounts_parse_to_fixed_point_units() {
    assert_eq!(parse_amount(&b"1.0".to_vec()), Some(10000));
    assert_eq!(parse_amount(&b"1.5".to_vec()), Some(15000));
    assert_eq!(parse_amount(&b"0.0001".to_vec()), Some(1));
    assert_eq!(parse_amount(&b"2".to_vec()), Some(20000));
    assert_eq!(parse_amount(&b"2.".to_vec()), Some(20000));
    assert_eq!(parse_amount(&b".5".to_vec()), Some(5000));
    assert_eq!(parse_amount(&b"+3.25".to_vec()), Some(32500));
    assert_eq!(parse_amount(&b"10.1234".to_vec()), Some(101234));
}

#[test]
fn malformed_amounts_do_not_parse() {
    assert_eq!(parse_amount(&b"".to_vec()), None);
    assert_eq!(parse_amount(&b".".to_vec()), None);
    assert_eq!(parse_amount(&b"+".to_vec()), None);
    assert_eq!(parse_amount(&b"-1.0".to_vec()), None);
    assert_eq!(parse_amount(&b"1.00005".to_vec()), None);
    assert_eq!(parse_amount(&b"1e3".to_vec()), None);
    assert_eq!(parse_amount(&b"1,5".to_vec()), None);
    // One whole unit beyond the largest representable amount.
    assert_eq!(parse_amount(&b"1844674407370955".to_vec()), None);
    assert_eq!(parse_amount(&b"1844674407370954.9999".to_vec()), Some(18446744073709549999));
}

#[test]
fn ids_parse_as_plain_unsigned_integers() {
    assert_eq!(parse_u16(&b"0".to_vec()), Some(0));
    assert_eq!(parse_u16(&b"65535".to_vec()), Some(65535));
    assert_eq!(parse_u16(&b"65536".to_vec()), None);
    assert_eq!(parse_u16(&b"+7".to_vec()), Some(7));
    assert_eq!(parse_u16(&b"007".to_vec()), Some(7));
    assert_eq!(parse_u16(&b"".to_vec()), None);
    assert_eq!(parse_u16(&b"1.0".to_vec()), None);
    assert_eq!(parse_u32(&b"4294967295".to_vec()), Some(4294967295));
    assert_eq!(parse_u32(&b"4294967296".to_vec()), None);
    assert_eq!(parse_u32(&b"-1".to_vec()), None);
}
