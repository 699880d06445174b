//! Logical addresses: `scheme://host:port`, where the scheme names the
//! transport that reaches the peer.
use vstd::prelude::*;

verus! {

/// The transports a logical address can name.
#[derive(Clone, Copy, Debug, PartialEq, Eq, Structural)]
pub enum Scheme {
    /// `udp://host:port`: one datagram per command.
    Udp,
    /// `ws://host:port`: a WebSocket connection with its own outbound queue.
    Ws,
}

pub open spec fn udp_prefix() -> Seq<char> {
    "udp://"@
}

pub open spec fn ws_prefix() -> Seq<char> {
    "ws://"@
}

pub open spec fn has_prefix(s: Seq<char>, p: Seq<char>) -> bool {
    p.len() <= s.len() && s.subrange(0, p.len() as int) == p
}

/// The scheme of a logical address and what follows its `scheme://` prefix.
pub open spec fn scheme_of(addr: Seq<char>) -> Option<(Scheme, Seq<char>)> {
    if has_prefix(addr, udp_prefix()) {
        Some((Scheme::Udp, addr.subrange(udp_prefix().len() as int, addr.len() as int)))
    } else if has_prefix(addr, ws_prefix()) {
        Some((Scheme::Ws, addr.subrange(ws_prefix().len() as int, addr.len() as int)))
    } else {
        None
    }
}

/// Relies on str::strip_prefix: it returns what follows `prefix` exactly when
/// `s` starts with `prefix`.
#[verifier::external_body]
fn strip_prefix<'a>(s: &'a str, prefix: &str) -> (r: Option<&'a str>)
    ensures
        r is Some <==> has_prefix(s@, prefix@),
        r is Some ==> r->0@ == s@.subrange(prefix@.len() as int, s@.len() as int),
{
    s.strip_prefix(prefix)
}

/// Splits a logical address into its scheme and the `host:port` after it;
/// `None` for a scheme that no transport serves.
pub fn split_scheme(addr: &str) -> (r: Option<(Scheme, String)>)
    ensures
        match scheme_of(addr@) {
            Some((scheme, rest)) => r matches Some((s2, rest2)) && s2 == scheme && rest2@ == rest,
            None => r is None,
        },
{
    match strip_prefix(addr, "udp://") {
        Some(rest) => Some((Scheme::Udp, rest.to_owned())),
        None => match strip_prefix(addr, "ws://") {
            Some(rest) => Some((Scheme::Ws, rest.to_owned())),
            None => None,
        },
    }
}

} // verus!
