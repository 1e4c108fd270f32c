use ipc_membership::address::{parse_address, parse_optional_address};
use ipc_membership::collateral::{to_collateral, CollateralAmount, ATTO_PER_WHOLE};
use ipc_membership::errors::ParamError;
use ipc_membership::public_key::{decode_public_key, encode_public_key};
use ipc_membership::subnet::parse_subnet_id;

fn atto(f: f64) -> Result<u128, ParamError> {
    to_collateral(f.to_bits()).map(|c: CollateralAmount| c.atto)
}

#[test]
fn public_key_decodes_pairs() {
    assert_eq!(decode_public_key("04ab"), Ok(vec![0x04, 0xab]));
    assert_eq!(decode_public_key("04AB"), Ok(vec![0x04, 0xab]));
    assert_eq!(decode_public_key(""), Ok(vec![]));
}

#[test]
fn public_key_malformed() {
    assert_eq!(decode_public_key("04a"), Err(ParamError::InvalidPublicKeyEncoding));
    assert_eq!(decode_public_key("zz"), Err(ParamError::InvalidPublicKeyEncoding));
    assert_eq!(decode_public_key("0é"), Err(ParamError::InvalidPublicKeyEncoding));
}

#[test]
fn public_key_round_trip() {
    let bytes = vec![0x00u8, 0x04, 0xab, 0xff, 0x10];
    let text = encode_public_key(&bytes);
    assert_eq!(text, "0004abff10");
    assert_eq!(decode_public_key(&text), Ok(bytes));
}

#[test]
fn collateral_scales_to_atto() {
    assert_eq!(ATTO_PER_WHOLE, 1_000_000_000_000_000_000);
    assert_eq!(atto(2.5), Ok(2_500_000_000_000_000_000));
    assert_eq!(atto(1.0), Ok(1_000_000_000_000_000_000));
    assert_eq!(atto(0.0), Ok(0));
    assert_eq!(atto(-0.0), Ok(0));
    assert_eq!(atto(1999999999.0), Ok(1_999_999_999_000_000_000_000_000_000));
}

#[test]
fn collateral_rounds_exact_value_to_nearest() {
    // 0.1 is 0.1000000000000000055511151231257827... exactly.
    assert_eq!(atto(0.1), Ok(100_000_000_000_000_006));
    // 1e-18 is a little above one atto.
    assert_eq!(atto(1e-18), Ok(1));
    assert_eq!(atto(4e-19), Ok(0));
    assert_eq!(atto(f64::from_bits(1)), Ok(0));
}

#[test]
fn collateral_rounds_small_values() {
    // 2^-60 whole units are 0.867... atto; 2^-61 are 0.43... atto.
    assert_eq!(atto(2f64.powi(-60)), Ok(1));
    assert_eq!(atto(2f64.powi(-61)), Ok(0));
}

#[test]
fn collateral_rounds_ties_to_even() {
    // 2^-19 whole units are 1907348632812.5 atto; three times that ends in .5 too.
    assert_eq!(atto(2f64.powi(-19)), Ok(1_907_348_632_812));
    assert_eq!(atto(3.0 * 2f64.powi(-19)), Ok(5_722_045_898_438));
}

#[test]
fn collateral_refused() {
    assert_eq!(atto(-1.0), Err(ParamError::InvalidCollateralAmount));
    assert_eq!(atto(-1e-300), Err(ParamError::InvalidCollateralAmount));
    assert_eq!(atto(f64::NAN), Err(ParamError::InvalidCollateralAmount));
    assert_eq!(atto(f64::INFINITY), Err(ParamError::InvalidCollateralAmount));
    assert_eq!(atto(f64::NEG_INFINITY), Err(ParamError::InvalidCollateralAmount));
    assert_eq!(atto(2_000_000_000.0), Err(ParamError::InvalidCollateralAmount));
    assert_eq!(atto(1e300), Err(ParamError::InvalidCollateralAmount));
}

#[test]
fn subnet_parses_and_round_trips() {
    let s = parse_subnet_id("/r123/f0456").unwrap();
    assert_eq!(s.root_id(), 123);
    assert_eq!(s.depth(), 1);
    assert_eq!(s.to_string(), "/r123/f0456");
    let root = parse_subnet_id("/r314159").unwrap();
    assert_eq!(root.depth(), 0);
    assert_eq!(root.to_string(), "/r314159");
    let max = parse_subnet_id("/r18446744073709551615/f01/f02").unwrap();
    assert_eq!(max.root_id(), u64::MAX);
    assert_eq!(max.to_string(), "/r18446744073709551615/f01/f02");
}

#[test]
fn subnet_malformed() {
    for bad in [
        "/root/!!",
        "",
        "/",
        "r123",
        "/r",
        "/rx1",
        "/r0123",
        "/r123/",
        "/r123//f01",
        "/r18446744073709551616",
        "/r123/zzz",
        "/r123/f0456/",
    ] {
        assert_eq!(parse_subnet_id(bad).err(), Some(ParamError::InvalidSubnetId), "{}", bad);
    }
}

#[test]
fn addresses() {
    assert!(parse_address("f0456").is_ok());
    assert_eq!(parse_address("t1abc").err(), Some(ParamError::InvalidAddress));
    assert!(matches!(parse_optional_address(&None), Ok(None)));
    assert!(matches!(parse_optional_address(&Some("f01".to_string())), Ok(Some(_))));
    assert!(matches!(
        parse_optional_address(&Some("bogus".to_string())),
        Err(ParamError::InvalidAddress)
    ));
}
