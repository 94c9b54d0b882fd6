use subscription_billing::errors::SubscriptionError;
use subscription_billing::storage::StorageModule;
use subscription_billing::structs::PlanStatus;
use subscription_billing::subscriptions::Subscriptions;
use subscription_billing::views::ViewsModule;

fn b(s: &str) -> Vec<u8> {
    s.as_bytes().to_vec()
}

/// A ready-to-pay engine: one plan, one priced asset, payout set, enabled.
fn engine(plan: &str, validity: u64, asset: &str, price: u128) -> Subscriptions {
    let mut s = Subscriptions::init();
    s.add_plan(true, b(plan), validity).unwrap();
    s.set_subscription_plan_price(true, &b(plan), &b(asset), price).unwrap();
    s.set_payment_address(true, b("payout-addr")).unwrap();
    s.set_status(true, true).unwrap();
    s
}

#[test]
fn scenario_monthly_three_payments() {
    let mut s = engine("monthly", 2_592_000, "ASSETX", 100);

    let t = s
        .register_payment(&b("alice"), &b("monthly"), &b("ASSETX"), 100, 1000)
        .unwrap();
    assert_eq!(t.to, b("payout-addr"));
    assert_eq!(t.asset, b("ASSETX"));
    assert_eq!(t.amount, 100);
    let rows = s.get_user_plans(&b("alice"));
    assert_eq!(rows.len(), 1);
    assert_eq!(rows[0].plan_id, b("monthly"));
    assert_eq!(rows[0].expires_at, 2_593_000);
    assert_eq!(rows[0].first_subscribed, 1000);
    assert_eq!(rows[0].last_subscribed, 1000);

    // Renewal while the window is still open stacks the validity on top.
    s.register_payment(&b("alice"), &b("monthly"), &b("ASSETX"), 100, 2000)
        .unwrap();
    let rows = s.get_user_plans(&b("alice"));
    assert_eq!(rows[0].expires_at, 5_185_000);
    assert_eq!(rows[0].first_subscribed, 1000);
    assert_eq!(rows[0].last_subscribed, 2000);

    // 3,000,000 is still before the stacked expiry of 5,185,000, so this
    // payment stacks as well.
    s.register_payment(&b("alice"), &b("monthly"), &b("ASSETX"), 100, 3_000_000)
        .unwrap();
    let rows = s.get_user_plans(&b("alice"));
    assert_eq!(rows[0].expires_at, 7_777_000);
    assert_eq!(rows[0].first_subscribed, 1000);
    assert_eq!(rows[0].last_subscribed, 3_000_000);
}

#[test]
fn timely_renewals_stack() {
    let mut s = engine("p", 100, "TOK", 7);
    s.register_payment(&b("u"), &b("p"), &b("TOK"), 7, 1000).unwrap();
    s.register_payment(&b("u"), &b("p"), &b("TOK"), 7, 1050).unwrap();
    s.register_payment(&b("u"), &b("p"), &b("TOK"), 7, 1150).unwrap();
    let rows = s.get_user_plans(&b("u"));
    assert_eq!(rows[0].expires_at, 1000 + 3 * 100);
}

#[test]
fn lapsed_payment_resets() {
    let mut s = engine("p", 100, "TOK", 7);
    s.register_payment(&b("u"), &b("p"), &b("TOK"), 7, 1000).unwrap();
    assert_eq!(s.get_user_plans(&b("u"))[0].expires_at, 1100);
    // Strictly after the expiry: the unused window is discarded, not added.
    s.register_payment(&b("u"), &b("p"), &b("TOK"), 7, 2000).unwrap();
    let rows = s.get_user_plans(&b("u"));
    assert_eq!(rows[0].expires_at, 2100);
    assert_eq!(rows[0].first_subscribed, 1000);
    assert_eq!(rows[0].last_subscribed, 2000);
}

#[test]
fn reset_discards_lapsed_remainder() {
    let mut s = engine("p", 100, "TOK", 1);
    s.register_payment(&b("u"), &b("p"), &b("TOK"), 1, 1000).unwrap();
    s.register_payment(&b("u"), &b("p"), &b("TOK"), 1, 1050).unwrap();
    // Window now runs to 1200.  Pay again at 1205: a stack would give
    // 1300, the reset gives 1305.
    s.register_payment(&b("u"), &b("p"), &b("TOK"), 1, 1205).unwrap();
    assert_eq!(s.get_user_plans(&b("u"))[0].expires_at, 1305);
}

#[test]
fn wrong_amount_fails_and_changes_nothing() {
    let mut s = engine("p", 100, "TOK", 50);
    for bad in [0u128, 49, 51, 1000] {
        let r = s.register_payment(&b("u"), &b("p"), &b("TOK"), bad, 1000);
        assert!(matches!(r, Err(SubscriptionError::InvalidAmount)));
    }
    assert_eq!(s.get_user_plans(&b("u")).len(), 0);
    assert_eq!(s.get_users().len(), 0);
    assert_eq!(s.get_payment_token_ids().len(), 0);
    assert_eq!(s.ledger.total_for(&b("TOK")), 0);
}

#[test]
fn disabled_plan_fails_with_correct_asset_and_amount() {
    let mut s = engine("p", 100, "TOK", 50);
    s.disable_subscription_plan(true, &b("p")).unwrap();
    let r = s.register_payment(&b("u"), &b("p"), &b("TOK"), 50, 1000);
    assert!(matches!(r, Err(SubscriptionError::PlanDisabled)));
    assert_eq!(s.get_user_plans(&b("u")).len(), 0);
    assert_eq!(s.ledger.total_for(&b("TOK")), 0);
    // Re-enabling lets the same payment through.
    s.enable_subscription_plan(true, &b("p")).unwrap();
    assert!(s.register_payment(&b("u"), &b("p"), &b("TOK"), 50, 1000).is_ok());
}

#[test]
fn check_order_and_error_variants() {
    let mut s = Subscriptions::init();

    // Not yet enabled: every payment is refused up front.
    let r = s.register_payment(&b("u"), &b("p"), &b("TOK"), 1, 10);
    assert!(matches!(r, Err(SubscriptionError::ContractDisabled)));

    // Enabling without a payout address is a configuration error.
    let r = s.set_status(true, true);
    assert!(matches!(r, Err(SubscriptionError::ConfigurationError)));
    assert!(!s.is_enabled());
    // Disabling needs no address.
    s.set_status(true, false).unwrap();

    s.set_payment_address(true, b("payout")).unwrap();
    s.set_status(true, true).unwrap();
    assert!(s.is_enabled());

    // Unknown plan.
    let r = s.register_payment(&b("u"), &b("p"), &b("TOK"), 1, 10);
    assert!(matches!(r, Err(SubscriptionError::UnknownPlan)));

    s.add_plan(true, b("p"), 100).unwrap();

    // Plan exists but the asset is not in its allowed set.
    let r = s.register_payment(&b("u"), &b("p"), &b("TOK"), 1, 10);
    assert!(matches!(r, Err(SubscriptionError::AssetNotAccepted)));

    s.set_subscription_plan_price(true, &b("p"), &b("TOK"), 1).unwrap();
    assert!(s.register_payment(&b("u"), &b("p"), &b("TOK"), 1, 10).is_ok());
}

#[test]
fn owner_gating() {
    let mut s = Subscriptions::init();
    assert!(matches!(s.add_plan(false, b("p"), 1), Err(SubscriptionError::Unauthorized)));
    assert!(matches!(s.remove_plan(false, &b("p")), Err(SubscriptionError::Unauthorized)));
    assert!(matches!(
        s.enable_subscription_plan(false, &b("p")),
        Err(SubscriptionError::Unauthorized)
    ));
    assert!(matches!(
        s.disable_subscription_plan(false, &b("p")),
        Err(SubscriptionError::Unauthorized)
    ));
    assert!(matches!(
        s.set_subscription_plan_price(false, &b("p"), &b("TOK"), 1),
        Err(SubscriptionError::Unauthorized)
    ));
    assert!(matches!(
        s.remove_subscription_plan_token(false, &b("p"), &b("TOK")),
        Err(SubscriptionError::Unauthorized)
    ));
    assert!(matches!(s.set_status(false, true), Err(SubscriptionError::Unauthorized)));
    assert!(matches!(
        s.set_payment_address(false, b("a")),
        Err(SubscriptionError::Unauthorized)
    ));
    assert_eq!(s.get_subscription_plans().len(), 0);
}

#[test]
fn catalog_errors() {
    let mut s = Subscriptions::init();
    s.add_plan(true, b("p"), 100).unwrap();
    assert!(matches!(s.add_plan(true, b("p"), 7), Err(SubscriptionError::AlreadyExists)));
    assert!(matches!(s.remove_plan(true, &b("q")), Err(SubscriptionError::NotFound)));
    assert!(matches!(
        s.enable_subscription_plan(true, &b("q")),
        Err(SubscriptionError::NotFound)
    ));
    assert!(matches!(
        s.disable_subscription_plan(true, &b("q")),
        Err(SubscriptionError::NotFound)
    ));
    assert!(matches!(
        s.set_subscription_plan_price(true, &b("q"), &b("TOK"), 1),
        Err(SubscriptionError::NotFound)
    ));
    assert!(matches!(
        s.remove_subscription_plan_token(true, &b("q"), &b("TOK")),
        Err(SubscriptionError::NotFound)
    ));
    assert!(matches!(
        s.remove_subscription_plan_token(true, &b("p"), &b("TOK")),
        Err(SubscriptionError::AssetNotAccepted)
    ));
}

#[test]
fn remove_plan_cascades_prices() {
    let mut s = Subscriptions::init();
    s.add_plan(true, b("gone"), 100).unwrap();
    s.add_plan(true, b("kept"), 100).unwrap();
    s.set_subscription_plan_price(true, &b("gone"), &b("TOK1"), 1).unwrap();
    s.set_subscription_plan_price(true, &b("gone"), &b("TOK2"), 2).unwrap();
    s.set_subscription_plan_price(true, &b("kept"), &b("TOK1"), 3).unwrap();

    s.remove_plan(true, &b("gone")).unwrap();
    assert_eq!(s.get_subscription_plan_prices(&b("gone")).len(), 0);
    assert_eq!(s.get_subscription_plans().len(), 1);

    // Re-adding the plan finds no residue of the old prices.
    s.add_plan(true, b("gone"), 100).unwrap();
    assert_eq!(s.get_subscription_plan_prices(&b("gone")).len(), 0);

    // The other plan's price survived untouched.
    let kept = s.get_subscription_plan_prices(&b("kept"));
    assert_eq!(kept.len(), 1);
    assert_eq!(kept[0].0, b("TOK1"));
    assert_eq!(kept[0].1, 3);
}

#[test]
fn price_upsert_overwrites() {
    let mut s = engine("p", 100, "TOK", 50);
    s.set_subscription_plan_price(true, &b("p"), &b("TOK"), 80).unwrap();
    let prices = s.get_subscription_plan_prices(&b("p"));
    assert_eq!(prices.len(), 1);
    assert_eq!(prices[0].1, 80);
    assert!(matches!(
        s.register_payment(&b("u"), &b("p"), &b("TOK"), 50, 10),
        Err(SubscriptionError::InvalidAmount)
    ));
    assert!(s.register_payment(&b("u"), &b("p"), &b("TOK"), 80, 10).is_ok());
}

#[test]
fn removed_asset_is_no_longer_accepted() {
    let mut s = engine("p", 100, "TOK", 50);
    s.remove_subscription_plan_token(true, &b("p"), &b("TOK")).unwrap();
    assert_eq!(s.get_subscription_plan_prices(&b("p")).len(), 0);
    assert!(matches!(
        s.register_payment(&b("u"), &b("p"), &b("TOK"), 50, 10),
        Err(SubscriptionError::AssetNotAccepted)
    ));
}

#[test]
fn accounting_identity_across_users_and_assets() {
    let mut s = engine("p", 100, "TOK1", 10);
    s.set_subscription_plan_price(true, &b("p"), &b("TOK2"), 25).unwrap();

    s.register_payment(&b("alice"), &b("p"), &b("TOK1"), 10, 1).unwrap();
    s.register_payment(&b("bob"), &b("p"), &b("TOK1"), 10, 2).unwrap();
    s.register_payment(&b("alice"), &b("p"), &b("TOK1"), 10, 3).unwrap();
    s.register_payment(&b("bob"), &b("p"), &b("TOK2"), 25, 4).unwrap();

    assert_eq!(s.ledger.total_for(&b("TOK1")), 30);
    assert_eq!(s.ledger.total_for(&b("TOK2")), 25);
    assert_eq!(
        s.ledger.user_total_for(&b("alice"), &b("TOK1"))
            + s.ledger.user_total_for(&b("bob"), &b("TOK1")),
        s.ledger.total_for(&b("TOK1"))
    );
    assert_eq!(
        s.ledger.user_total_for(&b("alice"), &b("TOK2"))
            + s.ledger.user_total_for(&b("bob"), &b("TOK2")),
        s.ledger.total_for(&b("TOK2"))
    );

    let assets = s.get_payment_token_ids();
    assert_eq!(assets, vec![b("TOK1"), b("TOK2")]);
    let users = s.get_users();
    assert_eq!(users, vec![b("alice"), b("bob")]);
}

#[test]
fn views_list_full_records() {
    let mut s = Subscriptions::init();
    assert_eq!(s.get_subscription_plans().len(), 0);
    assert_eq!(s.get_subscription_plan_prices(&b("nope")).len(), 0);
    assert_eq!(s.get_user_plans(&b("nobody")).len(), 0);

    s.add_plan(true, b("a"), 11).unwrap();
    s.add_plan(true, b("z"), 22).unwrap();
    s.disable_subscription_plan(true, &b("z")).unwrap();
    let plans = s.get_subscription_plans();
    assert_eq!(plans.len(), 2);
    assert_eq!(plans[0].id, b("a"));
    assert_eq!(plans[0].validity, 11);
    assert_eq!(plans[0].status, PlanStatus::Enabled);
    assert!(!plans[0].allows_refund);
    assert_eq!(plans[0].refund_period, 0);
    assert_eq!(plans[1].id, b("z"));
    assert_eq!(plans[1].status, PlanStatus::Disabled);
}

#[test]
fn pay_with_native_and_other_assets() {
    let mut s = Subscriptions::init();
    s.add_plan(true, b("p"), 100).unwrap();
    s.set_subscription_plan_price(true, &b("p"), &b("EGLD"), 5).unwrap();
    s.set_subscription_plan_price(true, &b("p"), &b("USDC"), 9).unwrap();
    s.set_payment_address(true, b("payout")).unwrap();
    s.set_status(true, true).unwrap();

    let t = s.pay_with_egld(&b("u"), &b("p"), 5, 50).unwrap();
    assert_eq!(t.asset, b("EGLD"));
    assert_eq!(t.amount, 5);
    let t = s.pay_with_esdt(&b("u"), &b("p"), &b("USDC"), 9, 60).unwrap();
    assert_eq!(t.asset, b("USDC"));
    assert_eq!(s.ledger.total_for(&b("EGLD")), 5);
    assert_eq!(s.ledger.total_for(&b("USDC")), 9);
}

#[test]
fn zero_price_is_a_valid_price() {
    let mut s = engine("free", 100, "TOK", 0);
    assert!(matches!(
        s.register_payment(&b("u"), &b("free"), &b("TOK"), 1, 10),
        Err(SubscriptionError::InvalidAmount)
    ));
    assert!(s.register_payment(&b("u"), &b("free"), &b("TOK"), 0, 10).is_ok());
    assert_eq!(s.ledger.total_for(&b("TOK")), 0);
    assert_eq!(s.get_payment_token_ids(), vec![b("TOK")]);
}

#[test]
fn first_subscribed_is_immutable() {
    let mut s = engine("p", 100, "TOK", 1);
    s.register_payment(&b("u"), &b("p"), &b("TOK"), 1, 500).unwrap();
    s.register_payment(&b("u"), &b("p"), &b("TOK"), 1, 5000).unwrap();
    s.register_payment(&b("u"), &b("p"), &b("TOK"), 1, 50000).unwrap();
    let rows = s.get_user_plans(&b("u"));
    assert_eq!(rows.len(), 1);
    assert_eq!(rows[0].first_subscribed, 500);
    assert_eq!(rows[0].last_subscribed, 50000);
}

#[test]
fn rows_of_different_users_and_plans_stay_apart() {
    let mut s = engine("p1", 100, "TOK", 1);
    s.add_plan(true, b("p2"), 999).unwrap();
    s.set_subscription_plan_price(true, &b("p2"), &b("TOK"), 2).unwrap();
    s.register_payment(&b("alice"), &b("p1"), &b("TOK"), 1, 10).unwrap();
    s.register_payment(&b("alice"), &b("p2"), &b("TOK"), 2, 20).unwrap();
    s.register_payment(&b("bob"), &b("p1"), &b("TOK"), 1, 30).unwrap();

    let alice = s.get_user_plans(&b("alice"));
    assert_eq!(alice.len(), 2);
    assert_eq!(alice[0].plan_id, b("p1"));
    assert_eq!(alice[0].expires_at, 110);
    assert_eq!(alice[1].plan_id, b("p2"));
    assert_eq!(alice[1].expires_at, 1019);

    let bob = s.get_user_plans(&b("bob"));
    assert_eq!(bob.len(), 1);
    assert_eq!(bob[0].plan_id, b("p1"));
    assert_eq!(bob[0].expires_at, 130);
}

#[test]
fn validity_may_fill_the_whole_clock() {
    let mut s = engine("forever", u64::MAX, "TOK", 1);
    s.register_payment(&b("u"), &b("forever"), &b("TOK"), 1, 0).unwrap();
    assert_eq!(s.get_user_plans(&b("u"))[0].expires_at, u64::MAX);
}

#[test]
fn user_plans_survive_plan_removal() {
    let mut s = engine("p", 100, "TOK", 1);
    s.register_payment(&b("u"), &b("p"), &b("TOK"), 1, 500).unwrap();
    s.remove_plan(true, &b("p")).unwrap();
    // Entitlement history is never pruned.
    assert_eq!(s.get_user_plans(&b("u")).len(), 1);
    assert_eq!(s.get_users(), vec![b("u")]);
}
