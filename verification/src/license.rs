//! License verification: the routing of a key to its source and the
//! reading of each source's answer.
//!
//! The network calls themselves live outside; this module decides where
//! a key must be checked and what a checker's reply means. A reply is
//! `(granted, text)`: when granted, the text is the holder's address,
//! when refused, the reason shown to the user.

use vstd::prelude::*;

use crate::pathutil::{chars_eq, is_prefix_of, starts_with, str_to_chars};
use vstd::string::StringExecFns;

verus! {

/// The reply of the Gumroad checker.
pub struct GumroadResponse {
    pub success: bool,
    pub uses: u32,
    pub message: Option<String>,
    pub purchase: Option<GumroadPurchase>,
}

/// The purchase record inside a Gumroad reply.
pub struct GumroadPurchase {
    pub email: Option<String>,
    pub license_key: Option<String>,
    pub refunded: bool,
    pub chargebacked: bool,
}

/// The reply of the website checker.
pub struct WebsiteResponse {
    pub valid: bool,
    pub uses: u32,
    pub email: Option<String>,
    pub message: Option<String>,
}

/// A validated license as it is kept on disk between runs.
pub struct StoredLicense {
    pub license_key: String,
    pub email: Option<String>,
    pub verified_at: u64,
    pub source: String,
}

/// Where a license key must be checked.
#[derive(Clone, Copy, PartialEq, Eq, Structural, Debug)]
pub enum LicenseRoute {
    /// The built-in demonstration key: granted without a check.
    Demo,
    /// A website-issued key, by its prefix.
    Website,
    /// Anything else is a Gumroad key.
    Gumroad,
}

/// Where `verify_license` routes a key.
pub open spec fn spec_license_route(key: Seq<char>) -> LicenseRoute {
    if key == "PROMETHEUS-DEMO-KEY"@ {
        LicenseRoute::Demo
    } else if is_prefix_of("PROM-"@, key) {
        LicenseRoute::Website
    } else {
        LicenseRoute::Gumroad
    }
}

/// Routes a license key to its checker: the demonstration key is granted
/// at once, a key with the website prefix goes to the website checker,
/// and every other key to the Gumroad checker.
pub fn verify_license(license_key: &str) -> (r: LicenseRoute)
    ensures
        r == spec_license_route(license_key@),
{
    let key = str_to_chars(license_key);
    let demo = str_to_chars("PROMETHEUS-DEMO-KEY");
    if chars_eq(&key, &demo) {
        LicenseRoute::Demo
    } else {
        let prefix = str_to_chars("PROM-");
        if starts_with(&key, &prefix) {
            LicenseRoute::Website
        } else {
            LicenseRoute::Gumroad
        }
    }
}

/// The reply granted for the demonstration key.
pub fn demo_grant() -> (r: (bool, Option<String>))
    ensures
        r.0,
        r.1 is Some && r.1->0@ == "demo@prometheus.local"@,
{
    (true, Some(String::from_str("demo@prometheus.local")))
}

/// What a Gumroad reply means: a failure carries its message (or a
/// stock one); a success is still refused when the key was already
/// activated elsewhere or the purchase was refunded or charged back;
/// anything else is granted with the purchase's address.
pub fn interpret_gumroad(resp: GumroadResponse) -> (r: (bool, Option<String>))
    ensures
        !resp.success ==> !r.0 && (match resp.message {
            Some(m) => r.1 == Some(m),
            None => r.1 is Some && r.1->0@ == "Invalid license key."@,
        }),
        resp.success && resp.uses > 1 ==> !r.0 && r.1 is Some && r.1->0@
            == "License key already activated on another device."@,
        resp.success && resp.uses <= 1 ==> (match resp.purchase {
            Some(purchase) => {
                if purchase.refunded || purchase.chargebacked {
                    !r.0 && r.1 is Some && r.1->0@ == "License has been refunded or chargebacked."@
                } else {
                    r.0 && r.1 == purchase.email
                }
            },
            None => r.0 && r.1 is None,
        }),
{
    if resp.success {
        if resp.uses > 1 {
            return (
                false,
                Some(String::from_str("License key already activated on another device.")),
            );
        }
        match resp.purchase {
            Some(purchase) => {
                if purchase.refunded || purchase.chargebacked {
                    (false, Some(String::from_str("License has been refunded or chargebacked.")))
                } else {
                    (true, purchase.email)
                }
            },
            None => (true, None),
        }
    } else {
        match resp.message {
            Some(m) => (false, Some(m)),
            None => (false, Some(String::from_str("Invalid license key."))),
        }
    }
}

/// What a website reply means: an invalid key is refused with its
/// message (or a stock one); a valid one is still refused when already
/// activated elsewhere; anything else is granted with its address.
pub fn interpret_website(resp: WebsiteResponse) -> (r: (bool, Option<String>))
    ensures
        !resp.valid ==> !r.0 && (match resp.message {
            Some(m) => r.1 == Some(m),
            None => r.1 is Some && r.1->0@ == "Invalid license key."@,
        }),
        resp.valid && resp.uses > 1 ==> !r.0 && r.1 is Some && r.1->0@
            == "License key already activated on another device."@,
        resp.valid && resp.uses <= 1 ==> r.0 && r.1 == resp.email,
{
    if resp.valid {
        if resp.uses > 1 {
            return (
                false,
                Some(String::from_str("License key already activated on another device.")),
            );
        }
        (true, resp.email)
    } else {
        match resp.message {
            Some(m) => (false, Some(m)),
            None => (false, Some(String::from_str("Invalid license key."))),
        }
    }
}

/// The refusal shown when the website checker cannot be reached with a
/// well-formed answer.
pub fn server_unavailable() -> (r: (bool, Option<String>))
    ensures
        !r.0,
        r.1 is Some && r.1->0@ == "License server unavailable."@,
{
    (false, Some(String::from_str("License server unavailable.")))
}

/// A validated license as it will be stored, stamped with the moment of
/// verification and the checker that granted it.
pub fn make_stored_license(
    license_key: String,
    email: Option<String>,
    verified_at: u64,
    source: String,
) -> (r: StoredLicense)
    ensures
        r.license_key == license_key,
        r.email == email,
        r.verified_at == verified_at,
        r.source == source,
{
    StoredLicense { license_key, email, verified_at, source }
}

} // verus!
