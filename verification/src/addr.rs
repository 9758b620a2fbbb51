//! Addresses of name servers.

use vstd::prelude::*;

verus! {

/// An IP address, as the number that its bytes spell in network order.
#[derive(Debug, Clone, Copy, PartialEq, Eq, Structural)]
pub enum IpAddr {
    /// An IPv4 address.
    V4(u32),
    /// An IPv6 address.
    V6(u128),
}

/// An address as a resolver configuration lists it: an IPv6 address can carry a scope.
#[derive(Debug, PartialEq, Eq)]
pub enum ScopedIp {
    /// An IPv4 address.
    V4(u32),
    /// An IPv6 address and its scope, where it carries one.
    V6(u128, Option<String>),
}

/// What a `ScopedIp` says.
pub struct ScopedIpView {
    /// The address.
    pub addr: IpAddr,
    /// Its scope, where it carries one.
    pub scope: Option<Seq<char>>,
}

impl View for ScopedIp {
    type V = ScopedIpView;

    open spec fn view(&self) -> ScopedIpView {
        match *self {
            ScopedIp::V4(bits) => ScopedIpView { addr: IpAddr::V4(bits), scope: None },
            ScopedIp::V6(bits, scope) => ScopedIpView {
                addr: IpAddr::V6(bits),
                scope: match scope {
                    Some(s) => Some(s@),
                    None => None,
                },
            },
        }
    }
}

/// The address that a text denotes, where it denotes one.
pub uninterp spec fn ip_from_text(text: Seq<char>) -> Option<IpAddr>;

/// The usual text of an address.
pub uninterp spec fn ip_to_text(ip: IpAddr) -> Seq<char>;

/// Parses with `FromStr` of `core::net::IpAddr`: it is claimed that the outcome depends on the
/// text alone. Which texts denote which address is left unsaid.
#[verifier::external_body]
pub(crate) fn parse_ip(text: &str) -> (r: Option<IpAddr>)
    ensures
        r == ip_from_text(text@),
{
    match text.parse::<core::net::IpAddr>() {
        Ok(core::net::IpAddr::V4(ip)) => Some(IpAddr::V4(u32::from(ip))),
        Ok(core::net::IpAddr::V6(ip)) => Some(IpAddr::V6(u128::from(ip))),
        Err(_) => None,
    }
}

/// Formats with `Display` of `core::net::IpAddr`: it is claimed that the text depends on the
/// address alone, and that parsing it gives the address back.
#[verifier::external_body]
pub(crate) fn format_ip(ip: IpAddr) -> (r: String)
    ensures
        r@ == ip_to_text(ip),
        ip_from_text(r@) == Some(ip),
{
    let ip = match ip {
        IpAddr::V4(bits) => core::net::IpAddr::V4(core::net::Ipv4Addr::from(bits)),
        IpAddr::V6(bits) => core::net::IpAddr::V6(core::net::Ipv6Addr::from(bits)),
    };
    ip.to_string()
}

} // verus!
