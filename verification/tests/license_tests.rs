use prometheus_core::license::{
    demo_grant, interpret_gumroad, interpret_website, make_stored_license, server_unavailable,
    verify_license, GumroadPurchase, GumroadResponse, LicenseRoute, WebsiteResponse,
};

fn gumroad_ok(uses: u32, purchase: Option<GumroadPurchase>) -> GumroadResponse {
    GumroadResponse { success: true, uses, message: None, purchase }
}

#[test]
fn keys_route_by_shape() {
    assert_eq!(verify_license("PROMETHEUS-DEMO-KEY"), LicenseRoute::Demo);
    assert_eq!(verify_license("PROM-1234-5678"), LicenseRoute::Website);
    assert_eq!(verify_license("ABCD-EFGH-IJKL"), LicenseRoute::Gumroad);
    assert_eq!(verify_license(""), LicenseRoute::Gumroad);
    // The demo key must match exactly.
    assert_eq!(verify_license("PROMETHEUS-DEMO-KEY2"), LicenseRoute::Gumroad);
}

#[test]
fn demo_key_is_granted_with_its_address() {
    let (ok, email) = demo_grant();
    assert!(ok);
    assert_eq!(email.as_deref(), Some("demo@prometheus.local"));
}

#[test]
fn gumroad_grant_carries_the_purchase_email() {
    let purchase = GumroadPurchase {
        email: Some(String::from("buyer@example.com")),
        license_key: None,
        refunded: false,
        chargebacked: false,
    };
    let (ok, email) = interpret_gumroad(gumroad_ok(1, Some(purchase)));
    assert!(ok);
    assert_eq!(email.as_deref(), Some("buyer@example.com"));
}

#[test]
fn gumroad_success_without_purchase_is_granted_plain() {
    let (ok, email) = interpret_gumroad(gumroad_ok(0, None));
    assert!(ok);
    assert_eq!(email, None);
}

#[test]
fn gumroad_key_used_twice_is_refused() {
    let (ok, msg) = interpret_gumroad(gumroad_ok(2, None));
    assert!(!ok);
    assert_eq!(msg.as_deref(), Some("License key already activated on another device."));
}

#[test]
fn gumroad_refunded_purchase_is_refused() {
    let purchase = GumroadPurchase {
        email: Some(String::from("buyer@example.com")),
        license_key: None,
        refunded: true,
        chargebacked: false,
    };
    let (ok, msg) = interpret_gumroad(gumroad_ok(1, Some(purchase)));
    assert!(!ok);
    assert_eq!(msg.as_deref(), Some("License has been refunded or chargebacked."));
}

#[test]
fn gumroad_failure_keeps_its_message_or_a_stock_one() {
    let with_message = GumroadResponse {
        success: false,
        uses: 0,
        message: Some(String::from("That license does not exist.")),
        purchase: None,
    };
    let (ok, msg) = interpret_gumroad(with_message);
    assert!(!ok);
    assert_eq!(msg.as_deref(), Some("That license does not exist."));

    let without = GumroadResponse { success: false, uses: 0, message: None, purchase: None };
    let (ok, msg) = interpret_gumroad(without);
    assert!(!ok);
    assert_eq!(msg.as_deref(), Some("Invalid license key."));
}

#[test]
fn website_grant_and_refusals() {
    let good = WebsiteResponse {
        valid: true,
        uses: 1,
        email: Some(String::from("buyer@example.com")),
        message: None,
    };
    let (ok, email) = interpret_website(good);
    assert!(ok);
    assert_eq!(email.as_deref(), Some("buyer@example.com"));

    let reused = WebsiteResponse { valid: true, uses: 2, email: None, message: None };
    let (ok, msg) = interpret_website(reused);
    assert!(!ok);
    assert_eq!(msg.as_deref(), Some("License key already activated on another device."));

    let bad = WebsiteResponse { valid: false, uses: 0, email: None, message: None };
    let (ok, msg) = interpret_website(bad);
    assert!(!ok);
    assert_eq!(msg.as_deref(), Some("Invalid license key."));
}

#[test]
fn unreachable_server_is_a_refusal() {
    let (ok, msg) = server_unavailable();
    assert!(!ok);
    assert_eq!(msg.as_deref(), Some("License server unavailable."));
}

#[test]
fn stored_license_keeps_what_it_was_given() {
    let stored = make_stored_license(
        String::from("PROM-1234"),
        Some(String::from("buyer@example.com")),
        1_700_000_000,
        String::from("website"),
    );
    assert_eq!(stored.license_key, "PROM-1234");
    assert_eq!(stored.email.as_deref(), Some("buyer@example.com"));
    assert_eq!(stored.verified_at, 1_700_000_000);
    assert_eq!(stored.source, "website");
}
