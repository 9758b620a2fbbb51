//! Where the updater finds the files that it reads and writes.

use vstd::prelude::*;

verus! {

/// The paths of the files that the updater reads and writes.
#[derive(Debug, Clone, Copy)]
pub struct Config<'a> {
    /// The system's resolver configuration.
    pub resolv_conf: &'a str,
    /// The directory of the updater's own state.
    pub run_dir: &'a str,
    /// The list of domains that are forwarded without DNSSEC validation.
    pub resolv_anti_rfc6761: &'a str,
    /// A file that Knot Resolver changes whenever it starts.
    pub knot_resolver_last_started: &'a str,
    /// The resolver configuration that NetworkManager maintains.
    pub resolv_nm_conf: &'a str,
}

impl Config<'static> {
    /// The paths on an installed system.
    pub fn installed() -> (r: Self)
        ensures
            r.resolv_conf@ == "/etc/resolv.conf"@,
            r.run_dir@ == "/run/knot-nm-dns-update"@,
            r.resolv_anti_rfc6761@ == "/etc/resolv.anti_rfc6761"@,
            r.knot_resolver_last_started@ == "/run/knot-resolver/last_started"@,
            r.resolv_nm_conf@ == "/run/NetworkManager/resolv.conf"@,
    {
        Config {
            resolv_conf: "/etc/resolv.conf",
            run_dir: "/run/knot-nm-dns-update",
            resolv_anti_rfc6761: "/etc/resolv.anti_rfc6761",
            knot_resolver_last_started: "/run/knot-resolver/last_started",
            resolv_nm_conf: "/run/NetworkManager/resolv.conf",
        }
    }
}

} // verus!
