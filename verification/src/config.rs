//! The startup configuration's shape.  Reading and decoding the
//! configuration files happens outside the library; the decoded values
//! are handed in as these plain records.
use vstd::prelude::*;

verus! {

/// The `captif` subtable: the redirect URL template, and an expiry
/// field that is read but not consulted by the interceptor.
pub struct Captif {
    pub url: String,
    pub expires: Option<u32>,
}

/// The startup configuration: the `captif` subtable when present.
/// A configuration without it leaves the interceptor nothing to serve.
pub struct Genesis {
    pub captif: Option<Captif>,
}

} // verus!
