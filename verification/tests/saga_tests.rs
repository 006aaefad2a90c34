//! The full purchase flow across both stores, driven the way the host
//! would drive it: approval notification, listing, offer, remote
//! transfer-and-payout, resolution.

use nft_market::codec::sale_args_string;
use nft_market::effects::STORAGE_PRICE_PER_BYTE;
use nft_market::market::sale::Settlement;
use nft_market::market::STORAGE_PER_SALE;
use nft_market::nft::metadata::TokenMetadata;
use nft_market::payout::Payout;

fn s(x: &str) -> String {
    x.to_string()
}

fn bare_meta() -> TokenMetadata {
    TokenMetadata {
        title: None,
        description: None,
        media: None,
        media_hash: None,
        copies: None,
        issued_at: None,
        expires_at: None,
        starts_at: None,
        updated_at: None,
        extra: None,
        reference: None,
        reference_hash: None,
    }
}

#[test]
fn purchase_settles_end_to_end() {
    let deposit = 10_000 * STORAGE_PRICE_PER_BYTE;
    let mut registry = nft_market::nft::Contract::new_default_meta(s("registry.near"));
    let mut market = nft_market::market::Contract::new(s("market.near"));

    // the seller mints an asset carrying a royalty table
    registry
        .nft_mint(
            s("gem"),
            bare_meta(),
            s("seller.near"),
            Some(vec![(s("artist.near"), 500u16), (s("gallery.near"), 300u16)]),
            None,
            None,
            &s("seller.near"),
            deposit,
        )
        .unwrap();

    // the seller prepays rent, then approves the marketplace with a
    // sale-parameters payload; the registry notifies the marketplace
    market.storage_deposit(s("seller.near"), STORAGE_PER_SALE).unwrap();
    let (_, notification) = registry
        .nft_approve(
            &s("gem"),
            s("market.near"),
            Some(sale_args_string(1_000_000)),
            &s("seller.near"),
            deposit,
        )
        .unwrap();
    let n = notification.unwrap();
    market
        .nft_on_approve(n.token_id, n.owner_id, n.approval_id, &n.msg, &s("registry.near"), &s(
            "seller.near",
        ))
        .unwrap();

    // a buyer offers the asking price: the listing is gone at once
    let req = market.offer(&s("registry.near"), &s("gem"), 1_000_000, &s("buyer.near")).unwrap();
    assert!(market.get_sale(&nft_market::market::sale_key(&s("registry.near"), &s("gem"))).is_none());

    // the host forwards the request to the registry
    let (payout, _refund, _event) = registry
        .nft_transfer_payout(
            &s("market.near"),
            &req.buyer_id,
            &req.token_id,
            req.approval_id,
            req.memo,
            req.price,
            req.max_len_payout as u16,
        )
        .unwrap();
    assert_eq!(registry.nft_token(&s("gem")).unwrap().owner_id, s("buyer.near"));

    // the payout crosses the boundary as text and the saga settles it
    let response = payout.to_text();
    match market.resolve_purchase(&req.buyer_id, req.price, Some(&response)) {
        Settlement::Settled { payments } => {
            assert_eq!(payments.len(), 3);
            assert_eq!(payments[0].to, s("artist.near"));
            assert_eq!(payments[0].amount, 50_000);
            assert_eq!(payments[1].to, s("gallery.near"));
            assert_eq!(payments[1].amount, 30_000);
            assert_eq!(payments[2].to, s("seller.near"));
            assert_eq!(payments[2].amount, 920_000);
            let total: u128 = payments.iter().map(|p| p.amount).sum();
            assert_eq!(total, 1_000_000);
        },
        Settlement::Refunded { .. } => panic!("a registry payout within the invariant must settle"),
    }
}

#[test]
fn purchase_refunds_when_the_registry_answers_garbage() {
    let mut market = nft_market::market::Contract::new(s("market.near"));
    market.storage_deposit(s("seller.near"), STORAGE_PER_SALE).unwrap();
    market
        .nft_on_approve(
            s("gem"),
            s("seller.near"),
            0,
            &sale_args_string(1_000_000),
            &s("registry.near"),
            &s("seller.near"),
        )
        .unwrap();
    let req = market.offer(&s("registry.near"), &s("gem"), 1_500_000, &s("buyer.near")).unwrap();
    // the response parses but breaks the invariant: the sum is short by two
    let bad = Payout { payout: vec![(s("seller.near"), 1_499_998u128)] }.to_text();
    match market.resolve_purchase(&req.buyer_id, req.price, Some(&bad)) {
        Settlement::Refunded { payment } => {
            assert_eq!(payment.to, s("buyer.near"));
            // the refund is the full offered amount, not the asking price
            assert_eq!(payment.amount, 1_500_000);
        },
        Settlement::Settled { .. } => panic!("a short payout must be refunded"),
    }
}
