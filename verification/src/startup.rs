//! What the program does with its arguments and settings.

use crate::cli::Cli;
use crate::config::Settings;
use crate::text::same;
use vstd::prelude::*;

verus! {

/// The address to listen at: that of the command line, else that of the
/// settings.
pub fn effective_address(args: &Cli, settings: &Settings) -> (r: String)
    ensures
        r@ == if args.address@.len() == 0 {
            settings.address@
        } else {
            args.address@
        },
{
    if args.address.as_str().is_empty() {
        settings.address.clone()
    } else {
        args.address.clone()
    }
}

/// The port to listen at: that of the command line, else that of the settings.
pub fn effective_port(args: &Cli, settings: &Settings) -> (r: u16)
    ensures
        r == if args.port == 0 {
            settings.port_number
        } else {
            args.port
        },
{
    if args.port == 0 {
        settings.port_number
    } else {
        args.port
    }
}

/// How the address of a host is found.
#[derive(Clone, Copy, PartialEq, Eq, Structural)]
pub enum AddrSource {
    /// It is this machine.
    Loopback,
    /// The name is an address.
    Literal,
    /// The name is looked up, and the first address found is taken.
    Lookup,
}

/// How the address of `host` is found. `literal` says whether the name is an
/// address.
pub fn resolve_addr(host: &str, literal: bool) -> (r: AddrSource)
    ensures
        r == if host@ == "localhost"@ {
            AddrSource::Loopback
        } else if literal {
            AddrSource::Literal
        } else {
            AddrSource::Lookup
        },
{
    if same(host, "localhost") {
        return AddrSource::Loopback;
    }
    if literal {
        return AddrSource::Literal;
    }
    AddrSource::Lookup
}

/// Whether to push to a hub.
pub enum HubMode {
    /// Push to the hub at this URL, with this key.
    Push { url: String, key: String },
    /// Only one of the two was given.
    Incomplete,
    Off,
}

/// Whether `mode` is what a URL and a key ask for: to push if both were given
/// and neither is empty; a warning if only one was given.
pub open spec fn hub_mode_for(
    mode: HubMode,
    hub: Option<String>,
    hub_key: Option<String>,
) -> bool {
    if hub is Some && hub_key is Some && hub->0@.len() > 0 && hub_key->0@.len() > 0 {
        mode matches HubMode::Push { url, key } && url@ == hub->0@ && key@ == hub_key->0@
    } else if hub is Some != hub_key is Some {
        mode is Incomplete
    } else {
        mode is Off
    }
}

/// Whether to push to a hub.
pub fn hub_mode(args: &Cli) -> (r: HubMode)
    ensures
        hub_mode_for(r, args.hub, args.hub_key),
{
    match (&args.hub, &args.hub_key) {
        (Some(url), Some(key)) => {
            if !url.as_str().is_empty() && !key.as_str().is_empty() {
                HubMode::Push { url: url.clone(), key: key.clone() }
            } else {
                HubMode::Off
            }
        },
        (Some(_), None) => HubMode::Incomplete,
        (None, Some(_)) => HubMode::Incomplete,
        (None, None) => HubMode::Off,
    }
}

/// The collector pushes to a hub if and only if it was given both a URL and a
/// key, neither empty, and then to that URL with that key; with only one of the
/// two it warns.
pub proof fn law_hub_needs_url_and_key(
    mode: HubMode,
    hub: Option<String>,
    hub_key: Option<String>,
)
    requires
        hub_mode_for(mode, hub, hub_key),
    ensures
        mode is Push <==> (hub matches Some(url) && url@.len() > 0) && (hub_key matches Some(key)
            && key@.len() > 0),
        mode matches HubMode::Push { url, key } ==> hub is Some && url@ == hub->0@ && hub_key is Some
            && key@ == hub_key->0@,
        mode is Incomplete <==> (hub is Some && hub_key is None) || (hub is None
            && hub_key is Some),
{
}

} // verus!
