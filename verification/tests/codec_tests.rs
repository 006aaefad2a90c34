//! The payload codec: canonical texts parse back, and nothing else parses.

use nft_market::codec::dec_string;
use nft_market::codec::parse_bool;
use nft_market::codec::parse_dec;
use nft_market::codec::parse_payout;
use nft_market::codec::parse_sale_args;
use nft_market::codec::payout_string;
use nft_market::codec::sale_args_string;
use nft_market::payout::Payout;

#[test]
fn decimal_round_trip() {
    for v in [0u128, 1, 9, 10, 42, 9999, 10000, 123456789, u128::MAX] {
        let text = dec_string(v);
        assert_eq!(parse_dec(text.as_str()), Some(v));
    }
}

#[test]
fn decimal_rejects_junk() {
    assert_eq!(parse_dec(""), None);
    assert_eq!(parse_dec("007"), None);
    assert_eq!(parse_dec("12a"), None);
    assert_eq!(parse_dec("-5"), None);
    // one past the largest value that fits
    assert_eq!(parse_dec("340282366920938463463374607431768211456"), None);
    assert_eq!(parse_dec("340282366920938463463374607431768211455"), Some(u128::MAX));
}

#[test]
fn sale_args_round_trip() {
    let text = sale_args_string(500);
    assert_eq!(text, "sale-v1:500");
    assert_eq!(parse_sale_args(text.as_str()), Some(500));
    assert_eq!(parse_sale_args("sale-v1:0"), Some(0));
    assert_eq!(parse_sale_args("sale-v1:"), None);
    assert_eq!(parse_sale_args("sale-v2:500"), None);
    assert_eq!(parse_sale_args("500"), None);
    assert_eq!(parse_sale_args("sale-v1:0500"), None);
}

#[test]
fn payout_round_trip() {
    let entries = vec![
        ("alice.near".to_string(), 500u128),
        ("bob.near".to_string(), 300u128),
        ("carol.near".to_string(), 9200u128),
    ];
    let text = payout_string(&entries);
    assert_eq!(text, "payout-v1:alice.near=500;bob.near=300;carol.near=9200");
    let parsed = parse_payout(text.as_str()).expect("canonical text must parse");
    assert_eq!(parsed, entries);
}

#[test]
fn payout_empty_and_malformed() {
    assert_eq!(parse_payout("payout-v1:"), Some(vec![]));
    assert_eq!(parse_payout("payout-v1"), None);
    assert_eq!(parse_payout("payout-v1:;"), None);
    assert_eq!(parse_payout("payout-v1:alice=1;"), None);
    assert_eq!(parse_payout("payout-v1:=1"), None);
    assert_eq!(parse_payout("payout-v1:alice"), None);
    assert_eq!(parse_payout("payout-v1:alice=01"), None);
    assert_eq!(parse_payout("nonsense"), None);
}

#[test]
fn bool_payload() {
    assert_eq!(parse_bool("true"), Some(true));
    assert_eq!(parse_bool("false"), Some(false));
    assert_eq!(parse_bool("TRUE"), None);
    assert_eq!(parse_bool(""), None);
    assert_eq!(parse_bool("truef"), None);
}

#[test]
fn payout_check_enforces_invariant() {
    let good = Payout {
        payout: vec![("a".to_string(), 600u128), ("b".to_string(), 400u128)],
    };
    assert!(good.check(1000));
    assert!(good.check(1001)); // one unit of rounding slack
    assert!(!good.check(1002)); // two units short is rejected
    assert!(!good.check(999)); // paying out more than the total is rejected

    let empty = Payout { payout: vec![] };
    assert!(!empty.check(0));

    let dup = Payout {
        payout: vec![("a".to_string(), 1u128), ("a".to_string(), 1u128)],
    };
    assert!(!dup.check(2));

    let mut eleven = Vec::new();
    for i in 0..11u32 {
        eleven.push((format!("acct{}", i), 1u128));
    }
    let too_many = Payout { payout: eleven };
    assert!(!too_many.check(11));
}
