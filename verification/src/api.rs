//! Where the companion service is reached.
use crate::text::{append_str, string_from_chars};
use vstd::prelude::*;

verus! {

/// The address of the service for a kind of build.
pub open spec fn api_host(debug_build: bool) -> Seq<char> {
    if debug_build {
        "http://localhost:3000"@
    } else {
        "https://dprogram.me"@
    }
}

/// The address of the service: the local one for a debug build, the public
/// one for a release.
pub fn get_api_host(debug_build: bool) -> (host: &'static str)
    ensures
        host@ == api_host(debug_build),
{
    if debug_build {
        "http://localhost:3000"
    } else {
        "https://dprogram.me"
    }
}

/// The address at which the service gives the price of bitcoin.
pub fn bitcoin_price_url(debug_build: bool) -> (url: String)
    ensures
        url@ == api_host(debug_build) + "/api/proxy/sat-tracker/bitcoin-price"@,
{
    let mut out: Vec<char> = Vec::new();
    append_str(&mut out, get_api_host(debug_build));
    append_str(&mut out, "/api/proxy/sat-tracker/bitcoin-price");
    assert(out@ =~= api_host(debug_build) + "/api/proxy/sat-tracker/bitcoin-price"@);
    string_from_chars(&out)
}

/// The address at which the service gives its announcements.
pub fn announcements_url(debug_build: bool) -> (url: String)
    ensures
        url@ == api_host(debug_build) + "/api/proxy/sat-tracker/announcements"@,
{
    let mut out: Vec<char> = Vec::new();
    append_str(&mut out, get_api_host(debug_build));
    append_str(&mut out, "/api/proxy/sat-tracker/announcements");
    assert(out@ =~= api_host(debug_build) + "/api/proxy/sat-tracker/announcements"@);
    string_from_chars(&out)
}

/// The name under which the tracker of version `version` asks.
pub fn user_agent(version: &str) -> (agent: String)
    ensures
        agent@ == "SatTracker/"@ + version@,
{
    let mut out: Vec<char> = Vec::new();
    append_str(&mut out, "SatTracker/");
    append_str(&mut out, version);
    assert(out@ =~= "SatTracker/"@ + version@);
    string_from_chars(&out)
}

} // verus!
