//! The asset registry: mint, approvals, transfers, royalties, enumeration.

use nft_market::effects::STORAGE_PRICE_PER_BYTE;
use nft_market::errors::ContractError;
use nft_market::nft::metadata::NonFungibleTokenMetadata;
use nft_market::nft::metadata::TokenMetadata;
use nft_market::nft::Contract;

fn s(x: &str) -> String {
    x.to_string()
}

fn meta(title: &str) -> TokenMetadata {
    TokenMetadata {
        title: Some(s(title)),
        description: None,
        media: None,
        media_hash: None,
        copies: None,
        issued_at: None,
        expires_at: None,
        starts_at: None,
        updated_at: None,
        extra: None,
        reference: None,
        reference_hash: None,
    }
}

const DEPOSIT: u128 = 10_000 * STORAGE_PRICE_PER_BYTE;

fn registry_with_token(owner: &str, token: &str, royalties: Option<Vec<(String, u16)>>) -> Contract {
    let mut c = Contract::new_default_meta(s("registry.near"));
    c.nft_mint(s(token), meta(token), s(owner), royalties, None, None, &s(owner), DEPOSIT)
        .expect("mint");
    c
}

#[test]
fn mint_validates_and_records() {
    let mut c = Contract::new_default_meta(s("registry.near"));
    // more than six royalty recipients are rejected
    let mut seven = Vec::new();
    for i in 0..7u32 {
        seven.push((format!("r{}", i), 100u16));
    }
    assert!(matches!(
        c.nft_mint(s("t"), meta("t"), s("alice.near"), Some(seven), None, None, &s("alice.near"), DEPOSIT),
        Err(ContractError::TooManyRecipients)
    ));
    // a table past the whole is rejected
    assert!(matches!(
        c.nft_mint(
            s("t"),
            meta("t"),
            s("alice.near"),
            Some(vec![(s("a"), 6000u16), (s("b"), 5000u16)]),
            None,
            None,
            &s("alice.near"),
            DEPOSIT
        ),
        Err(ContractError::InvalidRoyalty)
    ));
    // an underfunded mint is rejected
    assert!(matches!(
        c.nft_mint(s("t"), meta("t"), s("alice.near"), None, None, None, &s("alice.near"), 1),
        Err(ContractError::InsufficientRent)
    ));
    let (refund, event) = c
        .nft_mint(s("t"), meta("t"), s("alice.near"), None, None, None, &s("alice.near"), DEPOSIT)
        .unwrap();
    assert!(refund.is_some());
    match event.event {
        nft_market::nft::events::EventLogVariant::NftMint(logs) => {
            assert_eq!(logs.len(), 1);
            assert_eq!(logs[0].owner_id, s("alice.near"));
            assert_eq!(logs[0].token_ids, vec![s("t")]);
        },
        _ => panic!("minting must log a mint event"),
    }
    // the same id cannot be minted twice
    assert!(matches!(
        c.nft_mint(s("t"), meta("t"), s("bob.near"), None, None, None, &s("bob.near"), DEPOSIT),
        Err(ContractError::AlreadyExists)
    ));
    assert_eq!(c.nft_total_supply(), 1);
    assert_eq!(c.nft_supply_for_owner(&s("alice.near")), 1);
    let record = c.nft_token(&s("t")).expect("minted");
    assert_eq!(record.owner_id, s("alice.near"));
    assert_eq!(record.ticket_used, vec![false]);
    assert_eq!(record.metadata.title, Some(s("t")));
}

#[test]
fn approvals_grant_renumber_and_revoke() {
    let mut c = registry_with_token("alice.near", "t", None);
    // only the owner may approve
    assert!(matches!(
        c.nft_approve(&s("t"), s("bob.near"), None, &s("bob.near"), DEPOSIT),
        Err(ContractError::Unauthorized)
    ));
    c.nft_approve(&s("t"), s("bob.near"), None, &s("alice.near"), DEPOSIT).unwrap();
    assert_eq!(c.nft_is_approved(&s("t"), &s("bob.near"), None), Ok(true));
    assert_eq!(c.nft_is_approved(&s("t"), &s("bob.near"), Some(0)), Ok(true));
    assert_eq!(c.nft_is_approved(&s("t"), &s("bob.near"), Some(1)), Ok(false));
    assert_eq!(c.nft_is_approved(&s("t"), &s("carol.near"), None), Ok(false));
    // re-approval issues a new sequence number, invalidating the old one
    c.nft_approve(&s("t"), s("bob.near"), None, &s("alice.near"), DEPOSIT).unwrap();
    assert_eq!(c.nft_is_approved(&s("t"), &s("bob.near"), Some(0)), Ok(false));
    assert_eq!(c.nft_is_approved(&s("t"), &s("bob.near"), Some(1)), Ok(true));
    // a revocation refunds the grant's rent
    let refund = c.nft_revoke(&s("t"), &s("bob.near"), &s("alice.near")).unwrap().unwrap();
    assert_eq!(refund.to, s("alice.near"));
    assert_eq!(refund.amount, ("bob.near".chars().count() as u128 + 12) * STORAGE_PRICE_PER_BYTE);
    assert_eq!(c.nft_is_approved(&s("t"), &s("bob.near"), None), Ok(false));
    // revoking an account that holds no grant refunds nothing
    assert!(c.nft_revoke(&s("t"), &s("bob.near"), &s("alice.near")).unwrap().is_none());
}

#[test]
fn approval_with_message_schedules_notification() {
    let mut c = registry_with_token("alice.near", "t", None);
    let (_, notification) = c
        .nft_approve(&s("t"), s("market.near"), Some(s("sale-v1:500")), &s("alice.near"), DEPOSIT)
        .unwrap();
    let n = notification.expect("a message schedules a notification");
    assert_eq!(n.account_id, s("market.near"));
    assert_eq!(n.token_id, s("t"));
    assert_eq!(n.owner_id, s("alice.near"));
    assert_eq!(n.approval_id, 0);
    assert_eq!(n.msg, s("sale-v1:500"));
}

#[test]
fn transfer_moves_ownership_and_clears_approvals() {
    let mut c = registry_with_token("alice.near", "t", None);
    c.nft_approve(&s("t"), s("bob.near"), None, &s("alice.near"), DEPOSIT).unwrap();
    c.nft_approve(&s("t"), s("carol.near"), None, &s("alice.near"), DEPOSIT).unwrap();
    // a stale sequence number is rejected
    assert!(matches!(
        c.nft_transfer(&s("dave.near"), &s("t"), 9, None, &s("bob.near")),
        Err(ContractError::ApprovalMismatch)
    ));
    // a stranger is rejected
    assert!(matches!(
        c.nft_transfer(&s("dave.near"), &s("t"), 0, None, &s("mallory.near")),
        Err(ContractError::Unauthorized)
    ));
    // transferring to the current owner is rejected
    assert!(matches!(
        c.nft_transfer(&s("alice.near"), &s("t"), 0, None, &s("bob.near")),
        Err(ContractError::SelfTransferRejected)
    ));
    // the delegate with the right sequence number may move it
    let (refund, event) = c.nft_transfer(&s("dave.near"), &s("t"), 0, None, &s("bob.near")).unwrap();
    match event.event {
        nft_market::nft::events::EventLogVariant::NftTransfer(logs) => {
            assert_eq!(logs[0].authorized_id, Some(s("bob.near")));
        },
        _ => panic!("a transfer must log a transfer event"),
    }
    // the old owner is refunded the rent of both cleared approvals
    let expected_bytes = ("bob.near".chars().count() + 12 + "carol.near".chars().count() + 12) as u128;
    assert_eq!(refund.to, s("alice.near"));
    assert_eq!(refund.amount, expected_bytes * STORAGE_PRICE_PER_BYTE);
    assert_eq!(c.nft_token(&s("t")).unwrap().owner_id, s("dave.near"));
    assert_eq!(c.nft_supply_for_owner(&s("alice.near")), 0);
    assert_eq!(c.nft_supply_for_owner(&s("dave.near")), 1);
    // a fresh approval epoch: nobody who was approved before stays approved
    assert_eq!(c.nft_is_approved(&s("t"), &s("bob.near"), None), Ok(false));
    assert_eq!(c.nft_is_approved(&s("t"), &s("carol.near"), None), Ok(false));
}

#[test]
fn royalty_split_preview() {
    let c = registry_with_token(
        "alice.near",
        "t",
        Some(vec![(s("a.near"), 500u16), (s("b.near"), 300u16)]),
    );
    let payout = c.nft_payout(&s("t"), 10_000, 10).unwrap();
    assert_eq!(
        payout.payout,
        vec![(s("a.near"), 500u128), (s("b.near"), 300u128), (s("alice.near"), 9200u128)]
    );
    // the cap is enforced
    assert!(matches!(c.nft_payout(&s("t"), 10_000, 1), Err(ContractError::TooManyRecipients)));
    // an owner named in the table absorbs its share into the remainder
    let c2 = registry_with_token(
        "alice.near",
        "t2",
        Some(vec![(s("alice.near"), 500u16), (s("b.near"), 300u16)]),
    );
    let payout2 = c2.nft_payout(&s("t2"), 10_000, 10).unwrap();
    assert_eq!(payout2.payout, vec![(s("b.near"), 300u128), (s("alice.near"), 9700u128)]);
}

#[test]
fn owner_transfer_names_no_authorizing_delegate() {
    // the owner moves their own asset, supplying a sequence number as the
    // plain transfer endpoint always does; the event still records that no
    // delegate authorized the move
    let mut c = registry_with_token("alice.near", "t", None);
    let (_refund, event) = c.nft_transfer(&s("bob.near"), &s("t"), 0, None, &s("alice.near")).unwrap();
    match event.event {
        nft_market::nft::events::EventLogVariant::NftTransfer(logs) => {
            assert_eq!(logs.len(), 1);
            assert_eq!(logs[0].old_owner_id, s("alice.near"));
            assert_eq!(logs[0].new_owner_id, s("bob.near"));
            assert_eq!(logs[0].authorized_id, None);
        },
        _ => panic!("a transfer must log a transfer event"),
    }
}

#[test]
fn is_approved_requires_a_live_asset() {
    let c = Contract::new_default_meta(s("registry.near"));
    assert_eq!(
        c.nft_is_approved(&s("ghost"), &s("bob.near"), None),
        Err(ContractError::NotFound)
    );
}

#[test]
fn rounding_loss_grows_with_tiny_totals() {
    // three recipients of a third each, on a total of three units: every
    // floor share is zero, the owner's remainder share is zero too, and the
    // split falls short of the total by one unit per recipient
    let c = registry_with_token(
        "alice.near",
        "t",
        Some(vec![(s("a"), 3333u16), (s("b"), 3333u16), (s("c"), 3333u16)]),
    );
    let payout = c.nft_payout(&s("t"), 3, 10).unwrap();
    assert_eq!(
        payout.payout,
        vec![(s("a"), 0u128), (s("b"), 0u128), (s("c"), 0u128), (s("alice.near"), 0u128)]
    );
    // such a payout breaks the settlement invariant and would be refunded
    assert!(!payout.check(3));
    // on a round total the same table splits exactly: the owner's single
    // remaining basis point absorbs what the floors left over
    let payout2 = c.nft_payout(&s("t"), 10_000, 10).unwrap();
    let total: u128 = payout2.payout.iter().map(|e| e.1).sum();
    assert_eq!(total, 10_000);
    assert!(payout2.check(10_000));
}

#[test]
fn transfer_payout_settles_against_the_snapshot() {
    let mut c = registry_with_token(
        "alice.near",
        "t",
        Some(vec![(s("a.near"), 500u16), (s("b.near"), 300u16)]),
    );
    c.nft_approve(&s("t"), s("market.near"), None, &s("alice.near"), DEPOSIT).unwrap();
    let (payout, refund, _event) = c
        .nft_transfer_payout(
            &s("market.near"),
            &s("buyer.near"),
            &s("t"),
            0,
            s("payout from market"),
            10_000,
            10,
        )
        .unwrap();
    // the split is computed against the pre-transfer owner
    assert_eq!(
        payout.payout,
        vec![(s("a.near"), 500u128), (s("b.near"), 300u128), (s("alice.near"), 9200u128)]
    );
    assert_eq!(refund.to, s("alice.near"));
    assert_eq!(c.nft_token(&s("t")).unwrap().owner_id, s("buyer.near"));
}

#[test]
fn transfer_call_reverts_when_the_receiver_declines() {
    let mut c = registry_with_token("alice.near", "t", None);
    let (req, _event) = c
        .nft_transfer_call(&s("shop.near"), &s("t"), 0, None, s("hello"), &s("alice.near"))
        .unwrap();
    assert_eq!(c.nft_token(&s("t")).unwrap().owner_id, s("shop.near"));
    assert_eq!(req.previous_owner_id, s("alice.near"));
    // the receiver answers `true`: give the asset back
    let answer = s("true");
    let (kept, refund, event) = c.nft_resolve_transfer(
        req.authorized_id,
        &req.previous_owner_id,
        &req.receiver_id,
        &req.token_id,
        req.approved_account_ids,
        req.memo,
        Some(&answer),
    );
    assert!(!kept);
    assert!(refund.is_some());
    // the revert is logged from the receiver back to the owner, with no
    // authorizing delegate: the owner made the original move themselves
    match event.expect("a revert logs a transfer").event {
        nft_market::nft::events::EventLogVariant::NftTransfer(logs) => {
            assert_eq!(logs.len(), 1);
            assert_eq!(logs[0].old_owner_id, s("shop.near"));
            assert_eq!(logs[0].new_owner_id, s("alice.near"));
            assert_eq!(logs[0].authorized_id, None);
        },
        _ => panic!("a revert must log a transfer event"),
    }
    assert_eq!(c.nft_token(&s("t")).unwrap().owner_id, s("alice.near"));
}

#[test]
fn transfer_call_stands_when_the_receiver_accepts() {
    let mut c = registry_with_token("alice.near", "t", None);
    let (req, _event) = c
        .nft_transfer_call(&s("shop.near"), &s("t"), 0, None, s("hello"), &s("alice.near"))
        .unwrap();
    let answer = s("false");
    let (kept, refund, event) = c.nft_resolve_transfer(
        req.authorized_id,
        &req.previous_owner_id,
        &req.receiver_id,
        &req.token_id,
        req.approved_account_ids,
        req.memo,
        Some(&answer),
    );
    assert!(kept);
    assert!(refund.is_some());
    assert!(event.is_none());
    assert_eq!(c.nft_token(&s("t")).unwrap().owner_id, s("shop.near"));
}

#[test]
fn enumeration_pages_in_mint_order() {
    let mut c = Contract::new_default_meta(s("registry.near"));
    for i in 0..3u32 {
        c.nft_mint(
            format!("t{}", i),
            meta("x"),
            s("alice.near"),
            None,
            None,
            None,
            &s("alice.near"),
            DEPOSIT,
        )
        .unwrap();
    }
    assert_eq!(c.nft_total_supply(), 3);
    // an absent limit yields an empty page
    assert_eq!(c.nft_tokens(None, None).len(), 0);
    let page = c.nft_tokens(Some(1), Some(10));
    assert_eq!(page.len(), 2);
    assert_eq!(page[0].token_id, s("t1"));
    assert_eq!(page[1].token_id, s("t2"));
    let owned = c.nft_tokens_for_owner(&s("alice.near"), None, Some(2));
    assert_eq!(owned.len(), 2);
    assert_eq!(owned[0].token_id, s("t0"));
    assert_eq!(c.nft_tokens_for_owner(&s("nobody.near"), None, Some(2)).len(), 0);
}

#[test]
fn registry_metadata_is_returned() {
    let c = Contract::new_default_meta(s("registry.near"));
    let m = c.nft_metadata();
    assert_eq!(m.spec, s("nft-1.0.0"));
    assert_eq!(m.symbol, s("GONEAR"));
}

#[test]
fn share_accounts_can_be_replaced() {
    let mut c = Contract::new_default_meta(s("registry.near"));
    c.nft_mint(s("t"), meta("t"), s("alice.near"), None, Some(3), None, &s("alice.near"), DEPOSIT)
        .unwrap();
    let refund = c
        .set_accounts(
            &s("t"),
            vec![s("bob.near"), s("carol.near")],
            &s("alice.near"),
            nft_market::nft::nft_core::SHARE_UPDATE_MIN_DEPOSIT,
        )
        .unwrap();
    // the new list is two characters longer, so rent was charged, and most
    // of the attached tenth of a unit comes back
    assert!(refund.is_some());
    let record = c.nft_token(&s("t")).unwrap();
    assert_eq!(record.shared_owners, vec![s("bob.near"), s("carol.near")]);
}

#[test]
fn shared_asset_records_shares() {
    let mut c = Contract::new_default_meta(s("registry.near"));
    c.nft_mint(s("t"), meta("t"), s("alice.near"), None, Some(3), None, &s("alice.near"), DEPOSIT)
        .unwrap();
    let record = c.nft_token(&s("t")).unwrap();
    assert_eq!(record.ticket_used, vec![false, false, false]);
    assert_eq!(record.shared_owners, vec![s("alice.near"), s("alice.near")]);
}
