use vstd::prelude::*;
use multiaddr::Protocol;

verus! {

/// Component tag: any other protocol.
pub const COMPONENT_OTHER: u8 = 0;
/// Component tag: `/ip4/...` (4 address bytes).
pub const COMPONENT_IP4: u8 = 1;
/// Component tag: `/ip6/...` (16 address bytes).
pub const COMPONENT_IP6: u8 = 2;
/// Component tag: `/dns/...`.
pub const COMPONENT_DNS: u8 = 3;
/// Component tag: `/dns4/...`.
pub const COMPONENT_DNS4: u8 = 4;
/// Component tag: `/dns6/...`.
pub const COMPONENT_DNS6: u8 = 5;
/// Component tag: `/dnsaddr/...`.
pub const COMPONENT_DNSADDR: u8 = 6;

/// What parsing a multiaddr string gives: its canonical text and the tagged
/// components in order, or `None` when the text is not a multiaddr.
pub uninterp spec fn multiaddr_parse(s: Seq<char>) -> Option<(Seq<char>, Seq<(u8, Seq<u8>)>)>;

/// The binary form of a peer id given as text, or `None` when the text is
/// not a peer id.
pub uninterp spec fn peer_id_bytes_of(text: Seq<char>) -> Option<Seq<u8>>;

/// The binary form of a peer id.
///
/// Calls `<PeerId as FromStr>::from_str` and `PeerId::to_bytes`; the result
/// is named `peer_id_bytes_of` of the text (`None` when parsing fails).
#[verifier::external_body]
pub(crate) fn peer_id_bytes(text: &str) -> (r: Option<Vec<u8>>)
    ensures
        match r {
            Some(b) => peer_id_bytes_of(text@) == Some(b@),
            None => peer_id_bytes_of(text@) is None,
        },
{
    text.parse::<multiaddr::PeerId>().ok().map(|p| p.to_bytes())
}

/// The byte views of tagged components.
pub open spec fn components_view(v: Seq<(u8, Vec<u8>)>) -> Seq<(u8, Seq<u8>)> {
    v.map_values(|c: (u8, Vec<u8>)| (c.0, c.1@))
}

/// Parse a multiaddr string into its canonical text and its components.
///
/// Calls `<multiaddr::Multiaddr as FromStr>::from_str`, `Multiaddr::iter` and
/// `Multiaddr::to_string`; the result is named `multiaddr_parse` of the text
/// (parsing is a function of the text alone). IPv4 components carry the 4
/// bytes of `Ipv4Addr::octets`, IPv6 components the 16 bytes of
/// `Ipv6Addr::octets`; other components carry no bytes. Each DNS protocol
/// has its own tag; every remaining protocol is tagged `COMPONENT_OTHER`.
#[verifier::external_body]
pub(crate) fn parse_multiaddr(s: &str) -> (r: Option<(String, Vec<(u8, Vec<u8>)>)>)
    ensures
        match r {
            None => multiaddr_parse(s@) is None,
            Some(p) => multiaddr_parse(s@) == Some((p.0@, components_view(p.1@)))
                && forall|i: int| 0 <= i < p.1@.len() ==> {
                    &&& (#[trigger] p.1@[i]).0 <= COMPONENT_DNSADDR
                    &&& p.1@[i].0 == COMPONENT_IP4 ==> p.1@[i].1@.len() == 4
                    &&& p.1@[i].0 == COMPONENT_IP6 ==> p.1@[i].1@.len() == 16
                },
        },
{
    let ma: multiaddr::Multiaddr = s.parse().ok()?;
    let parts = ma.iter().map(|p| match p {
        Protocol::Ip4(ip) => (COMPONENT_IP4, ip.octets().to_vec()),
        Protocol::Ip6(ip) => (COMPONENT_IP6, ip.octets().to_vec()),
        Protocol::Dns(_) => (COMPONENT_DNS, Vec::new()),
        Protocol::Dns4(_) => (COMPONENT_DNS4, Vec::new()),
        Protocol::Dns6(_) => (COMPONENT_DNS6, Vec::new()),
        Protocol::Dnsaddr(_) => (COMPONENT_DNSADDR, Vec::new()),
        _ => (COMPONENT_OTHER, Vec::new()),
    }).collect();
    Some((ma.to_string(), parts))
}

/// The index of the first component whose tag passes `want`, if any.
pub open spec fn first_index(comps: Seq<(u8, Seq<u8>)>, want: spec_fn(u8) -> bool) -> Option<int>
    decreases comps.len(),
{
    if comps.len() == 0 {
        None
    } else if want(comps[0].0) {
        Some(0)
    } else {
        match first_index(comps.drop_first(), want) {
            Some(i) => Some(i + 1),
            None => None,
        }
    }
}

/// `first_index` points at a component that passes `want`, and no earlier one does.
pub proof fn lemma_first_index(comps: Seq<(u8, Seq<u8>)>, want: spec_fn(u8) -> bool)
    ensures
        match first_index(comps, want) {
            Some(i) => 0 <= i < comps.len() && want(comps[i].0)
                && forall|j: int| 0 <= j < i ==> !want(#[trigger] comps[j].0),
            None => forall|j: int| 0 <= j < comps.len() ==> !want(#[trigger] comps[j].0),
        },
    decreases comps.len(),
{
    if comps.len() > 0 {
        lemma_first_index(comps.drop_first(), want);
        if !want(comps[0].0) {
            match first_index(comps.drop_first(), want) {
                Some(i) => {
                    assert forall|j: int| 0 <= j < i + 1 implies !want(#[trigger] comps[j].0) by {
                        if j > 0 {
                            assert(comps[j] == comps.drop_first()[j - 1]);
                        }
                    }
                },
                None => {
                    assert forall|j: int| 0 <= j < comps.len() implies !want(#[trigger] comps[j].0) by {
                        if j > 0 {
                            assert(comps[j] == comps.drop_first()[j - 1]);
                        }
                    }
                },
            }
        }
    }
}

/// Find the first component whose tag is `a` or `b`.
pub fn find_component(comps: &Vec<(u8, Vec<u8>)>, a: u8, b: u8) -> (r: Option<usize>)
    ensures
        match r {
            Some(i) => i < comps@.len() && (comps@[i as int].0 == a || comps@[i as int].0 == b)
                && forall|j: int| 0 <= j < i ==> (#[trigger] comps@[j]).0 != a && comps@[j].0 != b,
            None => forall|j: int| 0 <= j < comps@.len() ==> (#[trigger] comps@[j]).0 != a && comps@[j].0 != b,
        },
{
    let mut i: usize = 0;
    while i < comps.len()
        invariant
            i <= comps@.len(),
            forall|j: int| 0 <= j < i ==> (#[trigger] comps@[j]).0 != a && comps@[j].0 != b,
        decreases comps@.len() - i,
    {
        if comps[i].0 == a || comps[i].0 == b {
            return Some(i);
        }
        i = i + 1;
    }
    None
}

} // verus!
