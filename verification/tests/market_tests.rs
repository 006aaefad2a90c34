//! The marketplace: rent, listings, indices, and the settlement saga.

use nft_market::codec::sale_args_string;
use nft_market::errors::ContractError;
use nft_market::market::sale_key;
use nft_market::market::Contract;
use nft_market::market::STORAGE_PER_SALE;
use nft_market::market::sale::Settlement;
use nft_market::payout::Payout;

fn s(x: &str) -> String {
    x.to_string()
}

/// A marketplace with `seller` funded for two listings and one listing of
/// `token` at the given price, published by the registry's notification.
fn market_with_listing(token: &str, price: u128) -> Contract {
    let mut m = Contract::new(s("market.near"));
    m.storage_deposit(s("seller.near"), 2 * STORAGE_PER_SALE).unwrap();
    let msg = sale_args_string(price);
    m.nft_on_approve(
        s(token),
        s("seller.near"),
        7,
        &msg,
        &s("registry.near"),
        &s("seller.near"),
    )
    .unwrap();
    m
}

#[test]
fn storage_deposit_rejects_dust() {
    let mut m = Contract::new(s("market.near"));
    assert_eq!(
        m.storage_deposit(s("alice.near"), STORAGE_PER_SALE - 1),
        Err(ContractError::InsufficientRent)
    );
    assert_eq!(m.storage_balance_of(&s("alice.near")), 0);
    m.storage_deposit(s("alice.near"), STORAGE_PER_SALE).unwrap();
    assert_eq!(m.storage_balance_of(&s("alice.near")), STORAGE_PER_SALE);
    assert_eq!(m.storage_minimum_balance(), STORAGE_PER_SALE);
    assert_eq!(ContractError::InsufficientRent.describe(), "insufficient rent");
    assert_eq!(ContractError::NotFound.describe(), "not found");
}

#[test]
fn storage_withdraw_keeps_rent_for_live_listings() {
    let mut m = market_with_listing("token-1", 500);
    // the seller prepaid two listings' rent and has one live listing
    let refund = m.storage_withdraw(&s("seller.near")).expect("there is excess to refund");
    assert_eq!(refund.to, s("seller.near"));
    assert_eq!(refund.amount, STORAGE_PER_SALE);
    // exactly one listing's rent is left behind
    assert_eq!(m.storage_balance_of(&s("seller.near")), STORAGE_PER_SALE);
    // withdrawing again refunds nothing
    assert!(m.storage_withdraw(&s("seller.near")).is_none());
    assert_eq!(m.storage_balance_of(&s("seller.near")), STORAGE_PER_SALE);
}

#[test]
fn intake_validates_caller_owner_rent_and_payload() {
    let mut m = Contract::new(s("market.near"));
    let msg = sale_args_string(500);
    // a direct call, the registry being the signer, is rejected
    assert_eq!(
        m.nft_on_approve(s("t"), s("reg.near"), 1, &msg, &s("reg.near"), &s("reg.near")),
        Err(ContractError::DirectCallRejected)
    );
    // the claimed owner must be the signer
    assert_eq!(
        m.nft_on_approve(s("t"), s("alice.near"), 1, &msg, &s("reg.near"), &s("bob.near")),
        Err(ContractError::OwnerMismatch)
    );
    // the signer must have prepaid rent for one more listing
    assert_eq!(
        m.nft_on_approve(s("t"), s("alice.near"), 1, &msg, &s("reg.near"), &s("alice.near")),
        Err(ContractError::InsufficientRent)
    );
    m.storage_deposit(s("alice.near"), STORAGE_PER_SALE).unwrap();
    // the payload must parse
    assert_eq!(
        m.nft_on_approve(s("t"), s("alice.near"), 1, &s("garbage"), &s("reg.near"), &s("alice.near")),
        Err(ContractError::MalformedSaleArgs)
    );
    // and with everything in place the listing appears
    m.nft_on_approve(s("t"), s("alice.near"), 1, &msg, &s("reg.near"), &s("alice.near")).unwrap();
    let sale = m.get_sale(&sale_key(&s("reg.near"), &s("t"))).expect("listed");
    assert_eq!(sale.owner_id, s("alice.near"));
    assert_eq!(sale.approval_id, 1);
    assert_eq!(sale.sale_conditions, 500);
}

#[test]
fn listing_lifecycle() {
    // mintless market-side view of the lifecycle: list at 500, read it back,
    // update to 750, remove, and watch both indices empty out
    let mut m = market_with_listing("asset-7", 500);
    let key = sale_key(&s("registry.near"), &s("asset-7"));

    assert_eq!(m.get_supply_sales(), 1);
    assert_eq!(m.get_supply_by_owner_id(&s("seller.near")), 1);
    assert_eq!(m.get_supply_by_nft_contract_id(&s("registry.near"), None, None), 1);

    let by_owner = m.get_sales_by_owner_id(&s("seller.near"), None, None);
    assert_eq!(by_owner.len(), 1);
    assert_eq!(by_owner[0].token_id, s("asset-7"));
    assert_eq!(by_owner[0].sale_conditions, 500);

    let by_registry = m.get_sales_by_nft_contract_id(&s("registry.near"), None, None);
    assert_eq!(by_registry.len(), 1);
    assert_eq!(by_registry[0].token_id, s("asset-7"));

    // only the owner may reprice
    assert_eq!(
        m.update_price(&s("registry.near"), &s("asset-7"), 750, &s("mallory.near")),
        Err(ContractError::Unauthorized)
    );
    m.update_price(&s("registry.near"), &s("asset-7"), 750, &s("seller.near")).unwrap();
    assert_eq!(m.get_sale(&key).unwrap().sale_conditions, 750);

    // only the owner may remove
    assert!(matches!(
        m.remove_sale(&s("registry.near"), &s("asset-7"), &s("mallory.near")),
        Err(ContractError::Unauthorized)
    ));
    let removed = m.remove_sale(&s("registry.near"), &s("asset-7"), &s("seller.near")).unwrap();
    assert_eq!(removed.sale_conditions, 750);

    assert!(m.get_sale(&key).is_none());
    assert_eq!(m.get_supply_sales(), 0);
    assert_eq!(m.get_supply_by_owner_id(&s("seller.near")), 0);
    assert_eq!(m.get_supply_by_nft_contract_id(&s("registry.near"), None, None), 0);
    assert!(matches!(
        m.remove_sale(&s("registry.near"), &s("asset-7"), &s("seller.near")),
        Err(ContractError::NotFound)
    ));
}

#[test]
fn offer_validation_chain() {
    let mut m = market_with_listing("asset-1", 1_000_000);
    assert!(matches!(
        m.offer(&s("registry.near"), &s("asset-1"), 0, &s("buyer.near")),
        Err(ContractError::InsufficientOffer)
    ));
    assert!(matches!(
        m.offer(&s("registry.near"), &s("nope"), 5, &s("buyer.near")),
        Err(ContractError::NotFound)
    ));
    // a missing listing is not found even with nothing attached
    assert!(matches!(
        m.offer(&s("registry.near"), &s("nope"), 0, &s("buyer.near")),
        Err(ContractError::NotFound)
    ));
    assert!(matches!(
        m.offer(&s("registry.near"), &s("asset-1"), 2_000_000, &s("seller.near")),
        Err(ContractError::SelfPurchaseRejected)
    ));
    assert!(matches!(
        m.offer(&s("registry.near"), &s("asset-1"), 999_999, &s("buyer.near")),
        Err(ContractError::InsufficientOffer)
    ));
}

#[test]
fn accepted_offer_removes_listing_at_once() {
    let mut m = market_with_listing("asset-1", 1_000_000);
    let req = m.offer(&s("registry.near"), &s("asset-1"), 1_000_000, &s("buyer.near")).unwrap();
    assert_eq!(req.nft_contract_id, s("registry.near"));
    assert_eq!(req.token_id, s("asset-1"));
    assert_eq!(req.approval_id, 7);
    assert_eq!(req.price, 1_000_000);
    assert_eq!(req.max_len_payout, 10);
    assert_eq!(req.buyer_id, s("buyer.near"));
    // the same pair cannot be bought twice: the second offer finds nothing,
    // whatever it attaches
    assert!(matches!(
        m.offer(&s("registry.near"), &s("asset-1"), 1_000_000, &s("rival.near")),
        Err(ContractError::NotFound)
    ));
    assert!(matches!(
        m.offer(&s("registry.near"), &s("asset-1"), 0, &s("rival.near")),
        Err(ContractError::NotFound)
    ));
}

#[test]
fn refund_on_oversized_payout() {
    // an offer of 1_000_000 settles against a payout of eleven entries:
    // the saga refunds the buyer in full and pays none of the entries
    let mut m = market_with_listing("asset-1", 1_000_000);
    let req = m.offer(&s("registry.near"), &s("asset-1"), 1_000_000, &s("buyer.near")).unwrap();
    let mut entries = Vec::new();
    for i in 0..10u32 {
        entries.push((format!("acct{}", i), 90_909u128));
    }
    entries.push((s("acct10"), 90_910u128));
    let response = Payout { payout: entries }.to_text();
    match m.resolve_purchase(&req.buyer_id, req.price, Some(&response)) {
        Settlement::Refunded { payment } => {
            assert_eq!(payment.to, s("buyer.near"));
            assert_eq!(payment.amount, 1_000_000);
        },
        Settlement::Settled { .. } => panic!("an eleven-entry payout must be refunded"),
    }
}

#[test]
fn refund_on_missing_or_garbled_response() {
    let m = Contract::new(s("market.near"));
    match m.resolve_purchase(&s("buyer.near"), 42, None) {
        Settlement::Refunded { payment } => assert_eq!(payment.amount, 42),
        _ => panic!("a failed remote call must be refunded"),
    }
    let garbled = s("payout-v1:alice=borked");
    match m.resolve_purchase(&s("buyer.near"), 42, Some(&garbled)) {
        Settlement::Refunded { payment } => assert_eq!(payment.amount, 42),
        _ => panic!("an unparsable response must be refunded"),
    }
    let short = Payout { payout: vec![(s("a"), 40u128)] }.to_text();
    match m.resolve_purchase(&s("buyer.near"), 42, Some(&short)) {
        Settlement::Refunded { payment } => assert_eq!(payment.amount, 42),
        _ => panic!("a payout two units short must be refunded"),
    }
}

#[test]
fn settlement_pays_the_payout() {
    let m = Contract::new(s("market.near"));
    let response = Payout {
        payout: vec![(s("a.near"), 500u128), (s("b.near"), 300u128), (s("owner.near"), 9200u128)],
    }
    .to_text();
    match m.resolve_purchase(&s("buyer.near"), 10_000, Some(&response)) {
        Settlement::Settled { payments } => {
            assert_eq!(payments.len(), 3);
            assert_eq!(payments[0].to, s("a.near"));
            assert_eq!(payments[0].amount, 500);
            assert_eq!(payments[1].to, s("b.near"));
            assert_eq!(payments[1].amount, 300);
            assert_eq!(payments[2].to, s("owner.near"));
            assert_eq!(payments[2].amount, 9200);
        },
        Settlement::Refunded { .. } => panic!("a valid payout must settle"),
    }
}

#[test]
fn relisting_replaces_the_old_listing() {
    let mut m = market_with_listing("asset-1", 500);
    let msg = sale_args_string(900);
    m.nft_on_approve(
        s("asset-1"),
        s("seller.near"),
        8,
        &msg,
        &s("registry.near"),
        &s("seller.near"),
    )
    .unwrap();
    assert_eq!(m.get_supply_sales(), 1);
    let sale = m.get_sale(&sale_key(&s("registry.near"), &s("asset-1"))).unwrap();
    assert_eq!(sale.approval_id, 8);
    assert_eq!(sale.sale_conditions, 900);
}

#[test]
fn pagination_pages_in_order() {
    let mut m = Contract::new(s("market.near"));
    m.storage_deposit(s("seller.near"), 10 * STORAGE_PER_SALE).unwrap();
    for i in 0..4u32 {
        let msg = sale_args_string(100 + i as u128);
        m.nft_on_approve(
            format!("asset-{}", i),
            s("seller.near"),
            i as u64,
            &msg,
            &s("registry.near"),
            &s("seller.near"),
        )
        .unwrap();
    }
    let page = m.get_sales_by_owner_id(&s("seller.near"), Some(1), Some(2));
    assert_eq!(page.len(), 2);
    assert_eq!(page[0].token_id, s("asset-1"));
    assert_eq!(page[1].token_id, s("asset-2"));
    // past the end is empty; an absent limit defaults to ten
    assert_eq!(m.get_sales_by_owner_id(&s("seller.near"), Some(9), None).len(), 0);
    assert_eq!(m.get_sales_by_owner_id(&s("seller.near"), None, None).len(), 4);
    let reg = m.get_sales_by_nft_contract_id(&s("registry.near"), Some(2), None);
    assert_eq!(reg.len(), 2);
    assert_eq!(reg[0].token_id, s("asset-2"));
}
