use subscription_billing::donations::Donations;
use subscription_billing::errors::DonationError;

fn b(s: &str) -> Vec<u8> {
    s.as_bytes().to_vec()
}

#[test]
fn native_asset_is_allowed_from_the_start() {
    let mut d = Donations::init();
    assert!(d.register_donation(&b("alice"), &b("EGLD"), 10).is_ok());
    let totals = d.get_total_donations();
    assert_eq!(totals.len(), 1);
    assert_eq!(totals[0].0, b("EGLD"));
    assert_eq!(totals[0].1, 10);
}

#[test]
fn donation_endpoints_route_by_asset() {
    let mut d = Donations::init();
    d.enable_token(true, b("USDC")).unwrap();
    d.donate_egld(&b("alice"), 3).unwrap();
    d.donate_esdt(&b("alice"), &b("USDC"), 8).unwrap();
    assert!(matches!(
        d.donate_esdt(&b("alice"), &b("SPACE"), 1),
        Err(DonationError::AssetNotAccepted)
    ));
    let totals = d.get_total_donations();
    assert_eq!(totals, vec![(b("EGLD"), 3), (b("USDC"), 8)]);
}

#[test]
fn token_allow_list() {
    let mut d = Donations::init();
    assert!(matches!(
        d.enable_token(false, b("USDC")),
        Err(DonationError::Unauthorized)
    ));
    d.enable_token(true, b("USDC")).unwrap();
    assert!(matches!(
        d.enable_token(true, b("USDC")),
        Err(DonationError::AlreadyExists)
    ));
    assert!(matches!(
        d.disable_token(true, &b("SPACE")),
        Err(DonationError::NotFound)
    ));
    assert!(matches!(
        d.disable_token(false, &b("USDC")),
        Err(DonationError::Unauthorized)
    ));
    d.disable_token(true, &b("USDC")).unwrap();
    assert!(matches!(
        d.register_donation(&b("alice"), &b("USDC"), 5),
        Err(DonationError::AssetNotAccepted)
    ));
}

#[test]
fn donations_accumulate_per_token_and_per_donor() {
    let mut d = Donations::init();
    d.enable_token(true, b("USDC")).unwrap();
    d.register_donation(&b("alice"), &b("EGLD"), 10).unwrap();
    d.register_donation(&b("bob"), &b("EGLD"), 7).unwrap();
    d.register_donation(&b("alice"), &b("EGLD"), 3).unwrap();
    d.register_donation(&b("alice"), &b("USDC"), 20).unwrap();

    let totals = d.get_total_donations();
    assert_eq!(totals, vec![(b("EGLD"), 20), (b("USDC"), 20)]);

    let alice = d.get_user_donations(&b("alice"));
    assert_eq!(alice, vec![(b("EGLD"), 13), (b("USDC"), 20)]);
    let bob = d.get_user_donations(&b("bob"));
    assert_eq!(bob, vec![(b("EGLD"), 7)]);
    let nobody = d.get_user_donations(&b("carol"));
    assert_eq!(nobody.len(), 0);
}

#[test]
fn claim_requires_whitelist() {
    let mut d = Donations::init();
    d.register_donation(&b("alice"), &b("EGLD"), 10).unwrap();
    let r = d.claim_tokens(&b("mallory"), &vec![10]);
    assert!(matches!(r, Err(DonationError::Unauthorized)));
}

#[test]
fn claim_pays_out_positive_balances() {
    let mut d = Donations::init();
    d.enable_token(true, b("USDC")).unwrap();
    d.register_donation(&b("alice"), &b("EGLD"), 10).unwrap();
    d.register_donation(&b("alice"), &b("USDC"), 4).unwrap();
    d.whitelist_withdraw_address(true, b("treasury")).unwrap();

    // The host reports the EGLD balance already swept, USDC still here.
    let r = d.claim_tokens(&b("treasury"), &vec![0, 4]).unwrap();
    assert_eq!(r.len(), 1);
    assert_eq!(r[0].to, b("treasury"));
    assert_eq!(r[0].asset, b("USDC"));
    assert_eq!(r[0].amount, 4);

    let r = d.claim_tokens(&b("treasury"), &vec![10, 4]).unwrap();
    assert_eq!(r.len(), 2);
    assert_eq!(r[0].asset, b("EGLD"));
    assert_eq!(r[0].amount, 10);
    assert_eq!(r[1].asset, b("USDC"));
}

#[test]
fn claim_with_nothing_to_claim() {
    let mut d = Donations::init();
    d.whitelist_withdraw_address(true, b("treasury")).unwrap();
    // No donated token at all.
    let r = d.claim_tokens(&b("treasury"), &vec![]);
    assert!(matches!(r, Err(DonationError::NothingToClaim)));
    // Donated tokens, but every balance is zero.
    d.register_donation(&b("alice"), &b("EGLD"), 10).unwrap();
    let r = d.claim_tokens(&b("treasury"), &vec![0]);
    assert!(matches!(r, Err(DonationError::NothingToClaim)));
}

#[test]
fn disabled_token_stays_claimable() {
    let mut d = Donations::init();
    d.enable_token(true, b("USDC")).unwrap();
    d.register_donation(&b("alice"), &b("USDC"), 4).unwrap();
    d.disable_token(true, &b("USDC")).unwrap();
    d.whitelist_withdraw_address(true, b("treasury")).unwrap();
    // No longer accepted for new donations, but its collected balance can
    // still be claimed.
    let r = d.claim_tokens(&b("treasury"), &vec![4]).unwrap();
    assert_eq!(r.len(), 1);
    assert_eq!(r[0].asset, b("USDC"));
}

#[test]
fn withdraw_whitelist_management() {
    let mut d = Donations::init();
    assert!(matches!(
        d.whitelist_withdraw_address(false, b("a")),
        Err(DonationError::Unauthorized)
    ));
    d.whitelist_withdraw_address(true, b("a")).unwrap();
    assert!(matches!(
        d.whitelist_withdraw_address(true, b("a")),
        Err(DonationError::AlreadyExists)
    ));
    assert!(matches!(
        d.remove_withdraw_address(true, &b("z")),
        Err(DonationError::NotFound)
    ));
    assert!(matches!(
        d.remove_withdraw_address(false, &b("a")),
        Err(DonationError::Unauthorized)
    ));
    d.remove_withdraw_address(true, &b("a")).unwrap();
    d.register_donation(&b("x"), &b("EGLD"), 1).unwrap();
    assert!(matches!(
        d.claim_tokens(&b("a"), &vec![1]),
        Err(DonationError::Unauthorized)
    ));
}
