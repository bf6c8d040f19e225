//! The identity and trust layer of a single-tenant-per-store embedded
//! application: issuance and validation of the app's own session
//! tokens (HMAC-SHA-512), validation of the host platform's load
//! tokens (HMAC-SHA-256), the request-time credential-extraction
//! contract, and the pure parts of the one-time authorization-code
//! exchange.  The token wire format, its claim documents and their
//! base64url coding are implemented and proved here; only the MAC
//! primitives and the clock are taken from outside crates.  The wire
//! documents are read byte-exactly, in the one fixed rendering this
//! crate defines: that deliberate reading gives every parser an
//! if-and-only-if contract, at the price of rejecting other JSON
//! spellings of the same objects; each parser's doc comment states
//! the restriction where it applies.

use vstd::prelude::*;
use vstd::string::*;

pub mod authentication;
pub mod base64url;
pub mod bigcommerce;
pub mod claims;
pub mod jsonfmt;
pub mod signing;
pub mod token;

verus! {

/// A holder for sensitive string material (signing secrets, access
/// tokens).  The raw value is reachable only through `expose_secret`,
/// so that nothing reveals it by accident; `masked` is what anything
/// that wants a printable form gets instead.
pub struct Secret {
    value: String,
}

impl View for Secret {
    type V = Seq<char>;

    closed spec fn view(&self) -> Seq<char> {
        self.value@
    }
}

impl Secret {

    pub fn new(value: String) -> (r: Secret)
        ensures
            r@ == value@,
    {
        Secret { value }
    }

    /// The single intentional accessor for the raw value.
    pub fn expose_secret(&self) -> (r: &String)
        ensures
            r@ == self@,
    {
        &self.value
    }

    /// Redacted stand-in for any printable rendering of the secret.
    pub fn masked(&self) -> (r: String)
        ensures
            r@ == "[REDACTED]"@,
    {
        String::from_str("[REDACTED]")
    }
}

/// The app's session-token signing secret, injected once at startup.
pub struct JWTSecret(pub Secret);

impl View for JWTSecret {
    type V = Seq<char>;

    open spec fn view(&self) -> Seq<char> {
        self.0@
    }
}

} // verus!
