use subscription_billing::payment_proxy::PaymentProxy;

fn b(s: &str) -> Vec<u8> {
    s.as_bytes().to_vec()
}

#[test]
fn forwards_everything_to_the_owner() {
    let p = PaymentProxy::init(b("owner-addr"));
    let t = p.forward_payment(&b("USDC"), 123);
    assert_eq!(t.to, b("owner-addr"));
    assert_eq!(t.asset, b("USDC"));
    assert_eq!(t.amount, 123);
}

#[test]
fn native_payment_uses_the_native_asset_id() {
    let p = PaymentProxy::init(b("owner-addr"));
    let t = p.pay_with_egld(55);
    assert_eq!(t.to, b("owner-addr"));
    assert_eq!(t.asset, b("EGLD"));
    assert_eq!(t.amount, 55);
}

#[test]
fn other_assets_pass_through_unchanged() {
    let p = PaymentProxy::init(b("owner-addr"));
    let t = p.pay_with_esdt(&b("SPACE"), 1);
    assert_eq!(t.asset, b("SPACE"));
    assert_eq!(t.amount, 1);
}
