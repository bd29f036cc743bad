use vstd::prelude::*;
use crate::netaddr::{COMPONENT_DNS, COMPONENT_DNS4, COMPONENT_DNS6, COMPONENT_DNSADDR, COMPONENT_IP4, COMPONENT_IP6,
    multiaddr_parse, parse_multiaddr};
use crate::text::{chars_of, contains_chars, contains_seq};

verus! {

/// Classification of a network address by its reachability scope.
#[derive(Debug, Clone, Copy, PartialEq, Eq, Hash)]
pub enum AddressClass {
    /// `127.0.0.0/8` or `::1`.
    Loopback,
    /// `169.254.0.0/16` or `fe80::/10`.
    LinkLocal,
    /// RFC 1918 or ULA (`fc00::/7`).
    Private,
    /// Public IPv4/IPv6 (and DNS names).
    GlobalUnicast,
    /// `/p2p-circuit` — relay-mediated address.
    Relay,
    /// Unrecognized or unparseable address.
    Unknown,
}

/// How we learned about this address and how much we trust it.
#[derive(Debug, Clone, Copy, PartialEq, Eq, Hash, Structural)]
pub enum AddressTrust {
    /// Peer-advertised or from a DHT record.
    Claimed,
    /// Completed an Identify exchange with this peer+address.
    Observed,
    /// Peer passed PoW verification and signed Identify data.
    Verified,
}

/// The scope class of an IPv4 address.
pub open spec fn ipv4_class(o: Seq<u8>) -> AddressClass {
    if o[0] == 127 {
        AddressClass::Loopback
    } else if o[0] == 169 && o[1] == 254 {
        AddressClass::LinkLocal
    } else if o[0] == 10 || (o[0] == 172 && 16 <= o[1] <= 31) || (o[0] == 192 && o[1] == 168) {
        AddressClass::Private
    } else {
        AddressClass::GlobalUnicast
    }
}

/// The first 16-bit segment of an IPv6 address.
pub open spec fn ipv6_first_segment(o: Seq<u8>) -> int {
    o[0] * 256 + o[1]
}

/// Whether 16 bytes are the IPv6 loopback address `::1`.
pub open spec fn ipv6_is_loopback(o: Seq<u8>) -> bool {
    (forall|i: int| 0 <= i < 15 ==> o[i] == 0) && o[15] == 1
}

/// The scope class of an IPv6 address: loopback, link-local `fe80::/10`,
/// unique-local `fc00::/7`, else global.
pub open spec fn ipv6_class(o: Seq<u8>) -> AddressClass {
    let s0 = ipv6_first_segment(o);
    if ipv6_is_loopback(o) {
        AddressClass::Loopback
    } else if 0xfe80 <= s0 <= 0xfebf {
        AddressClass::LinkLocal
    } else if 0xfc00 <= s0 <= 0xfdff {
        AddressClass::Private
    } else {
        AddressClass::GlobalUnicast
    }
}

/// Whether a tag is a DNS name component (`/dns`, `/dns4`, `/dns6` or
/// `/dnsaddr`); such names are treated as global, as resolution happens
/// at connect time.
pub open spec fn is_dns_tag(t: u8) -> bool {
    t == COMPONENT_DNS || t == COMPONENT_DNS4 || t == COMPONENT_DNS6 || t == COMPONENT_DNSADDR
}

/// Whether a tag is an IP or DNS component.
pub open spec fn is_host_tag(t: u8) -> bool {
    t == COMPONENT_IP4 || t == COMPONENT_IP6 || is_dns_tag(t)
}

/// Whether a component tag is an IP address or a DNS name.
fn host_tag(t: u8) -> (b: bool)
    ensures
        b == is_host_tag(t),
{
    t == COMPONENT_IP4 || t == COMPONENT_IP6 || t == COMPONENT_DNS || t == COMPONENT_DNS4 || t == COMPONENT_DNS6
        || t == COMPONENT_DNSADDR
}

/// The first component that is an IP address or a DNS name.
fn find_host_component(comps: &Vec<(u8, Vec<u8>)>) -> (r: Option<usize>)
    ensures
        match r {
            Some(i) => i < comps@.len() && is_host_tag(comps@[i as int].0)
                && forall|j: int| 0 <= j < i ==> !is_host_tag((#[trigger] comps@[j]).0),
            None => forall|j: int| 0 <= j < comps@.len() ==> !is_host_tag((#[trigger] comps@[j]).0),
        },
{
    let mut i: usize = 0;
    while i < comps.len()
        invariant
            i <= comps@.len(),
            forall|j: int| 0 <= j < i ==> !is_host_tag((#[trigger] comps@[j]).0),
        decreases comps@.len() - i,
    {
        if host_tag(comps[i].0) {
            return Some(i);
        }
        i = i + 1;
    }
    None
}

/// `is_host_tag` as a predicate value.
pub open spec fn host_pred() -> spec_fn(u8) -> bool {
    |t: u8| is_host_tag(t)
}

/// The class of a multiaddr given as text: relay if its canonical text
/// contains `/p2p-circuit`, else by its first IP or DNS component; unknown
/// when it has none or does not parse.
pub open spec fn multiaddr_class(s: Seq<char>) -> AddressClass {
    match multiaddr_parse(s) {
        None => AddressClass::Unknown,
        Some(p) => if contains_seq(p.0, "/p2p-circuit"@) {
            AddressClass::Relay
        } else {
            match crate::netaddr::first_index(p.1, host_pred()) {
                None => AddressClass::Unknown,
                Some(i) => if p.1[i].0 == COMPONENT_IP4 {
                    ipv4_class(p.1[i].1)
                } else if p.1[i].0 == COMPONENT_IP6 {
                    ipv6_class(p.1[i].1)
                } else {
                    AddressClass::GlobalUnicast
                },
            }
        },
    }
}

/// Classify 4 IPv4 octets.
pub fn classify_ipv4(o: &Vec<u8>) -> (c: AddressClass)
    requires
        o@.len() == 4,
    ensures
        c == ipv4_class(o@),
{
    if o[0] == 127 {
        AddressClass::Loopback
    } else if o[0] == 169 && o[1] == 254 {
        AddressClass::LinkLocal
    } else if is_private_ipv4(o) {
        AddressClass::Private
    } else {
        AddressClass::GlobalUnicast
    }
}

/// RFC 1918 private ranges.
pub fn is_private_ipv4(o: &Vec<u8>) -> (b: bool)
    requires
        o@.len() == 4,
    ensures
        b == (o@[0] == 10 || (o@[0] == 172 && 16 <= o@[1] <= 31) || (o@[0] == 192 && o@[1] == 168)),
{
    o[0] == 10 || (o[0] == 172 && 16 <= o[1] && o[1] <= 31) || (o[0] == 192 && o[1] == 168)
}

/// The first segment of 16 IPv6 bytes.
fn first_segment(o: &Vec<u8>) -> (s: u16)
    requires
        o@.len() == 16,
    ensures
        s == ipv6_first_segment(o@),
{
    (o[0] as u16) * 256 + (o[1] as u16)
}

/// IPv6 link-local: `fe80::/10`.
pub fn is_link_local_ipv6(o: &Vec<u8>) -> (b: bool)
    requires
        o@.len() == 16,
    ensures
        b == (0xfe80 <= ipv6_first_segment(o@) <= 0xfebf),
{
    let s = first_segment(o);
    assert((s & 0xffc0u16) == 0xfe80u16 <==> (0xfe80u16 <= s && s <= 0xfebfu16)) by (bit_vector);
    (s & 0xffc0) == 0xfe80
}

/// IPv6 unique local address: `fc00::/7`.
pub fn is_ula_ipv6(o: &Vec<u8>) -> (b: bool)
    requires
        o@.len() == 16,
    ensures
        b == (0xfc00 <= ipv6_first_segment(o@) <= 0xfdff),
{
    let s = first_segment(o);
    assert((s & 0xfe00u16) == 0xfc00u16 <==> (0xfc00u16 <= s && s <= 0xfdffu16)) by (bit_vector);
    (s & 0xfe00) == 0xfc00
}

/// Whether 16 bytes are `::1`.
pub fn is_loopback_ipv6(o: &Vec<u8>) -> (b: bool)
    requires
        o@.len() == 16,
    ensures
        b == ipv6_is_loopback(o@),
{
    let mut i: usize = 0;
    while i < 15
        invariant
            i <= 15,
            o@.len() == 16,
            forall|j: int| 0 <= j < i ==> o@[j] == 0,
        decreases 15 - i,
    {
        if o[i] != 0 {
            return false;
        }
        i = i + 1;
    }
    o[15] == 1
}

/// Classify 16 IPv6 bytes.
pub fn classify_ipv6(o: &Vec<u8>) -> (c: AddressClass)
    requires
        o@.len() == 16,
    ensures
        c == ipv6_class(o@),
{
    if is_loopback_ipv6(o) {
        AddressClass::Loopback
    } else if is_link_local_ipv6(o) {
        AddressClass::LinkLocal
    } else if is_ula_ipv6(o) {
        AddressClass::Private
    } else {
        AddressClass::GlobalUnicast
    }
}

/// Classify a multiaddr (given as text) by the scope of its address.
pub fn classify_multiaddr(addr: &str) -> (c: AddressClass)
    ensures
        c == multiaddr_class(addr@),
{
    match parse_multiaddr(addr) {
        None => AddressClass::Unknown,
        Some((text, comps)) => {
            let hay = chars_of(text.as_str());
            let needle = chars_of("/p2p-circuit");
            if contains_chars(&hay, &needle) {
                return AddressClass::Relay;
            }
            let ghost cv = crate::netaddr::components_view(comps@);
            proof {
                crate::netaddr::lemma_first_index(cv, host_pred());
            }
            let pick = find_host_component(&comps);
            match pick {
                None => {
                    assert(crate::netaddr::first_index(cv, host_pred()) is None) by {
                        if let Some(k) = crate::netaddr::first_index(cv, host_pred()) {
                            assert(cv[k] == (comps@[k].0, comps@[k].1@));
                            assert(host_pred()(cv[k].0));
                        }
                    }
                    AddressClass::Unknown
                },
                Some(i) => {
                    assert(cv[i as int] == (comps@[i as int].0, comps@[i as int].1@));
                    assert(host_pred()(cv[i as int].0));
                    assert forall|j: int| 0 <= j < i implies !host_pred()(#[trigger] cv[j].0) by {
                        assert(cv[j] == (comps@[j].0, comps@[j].1@));
                    }
                    assert(crate::netaddr::first_index(cv, host_pred()) == Some(i as int)) by {
                        let f = crate::netaddr::first_index(cv, host_pred());
                        if let Some(k) = f {
                            if k < i {
                                assert(!host_pred()(cv[k].0));
                            } else if k > i {
                                assert(!host_pred()(cv[i as int].0));
                            }
                        }
                    }
                    let (tag, bytes) = (comps[i].0, &comps[i].1);
                    if tag == COMPONENT_IP4 {
                        classify_ipv4(bytes)
                    } else if tag == COMPONENT_IP6 {
                        classify_ipv6(bytes)
                    } else {
                        AddressClass::GlobalUnicast
                    }
                },
            }
        },
    }
}

/// A peer address annotated with its classification and trust level.
#[derive(Debug, Clone)]
pub struct PeerAddress {
    /// The address text.
    pub addr: String,
    /// What kind of address this is.
    pub class: AddressClass,
    /// How much we trust this address.
    pub trust: AddressTrust,
}

/// Whether a class is routable when learned from a remote peer.
pub open spec fn routable_from_peer(c: AddressClass) -> bool {
    c == AddressClass::GlobalUnicast || c == AddressClass::Relay
}

/// Whether a class is routable from local bootstrap configuration.
pub open spec fn routable_from_bootstrap(c: AddressClass) -> bool {
    c == AddressClass::Private || c == AddressClass::GlobalUnicast || c == AddressClass::Relay
}

impl PeerAddress {
    /// Classify and wrap an address with the given trust level.
    pub fn new(addr: &str, trust: AddressTrust) -> (p: Self)
        ensures
            p.addr@ == addr@,
            p.class == multiaddr_class(addr@),
            p.trust == trust,
    {
        let class = classify_multiaddr(addr);
        PeerAddress { addr: crate::text::owned(addr), class, trust }
    }

    /// Whether this address may enter the routing table from a remote peer:
    /// only global unicast and relay addresses, and only once an Identify
    /// exchange has taken place (trust Observed or Verified).
    pub fn is_routable_from_peer(&self) -> (b: bool)
        ensures
            b == (routable_from_peer(self.class) && self.trust != AddressTrust::Claimed),
    {
        let class_ok = match self.class {
            AddressClass::Loopback | AddressClass::LinkLocal => false,
            AddressClass::Private => false,
            AddressClass::GlobalUnicast | AddressClass::Relay => true,
            AddressClass::Unknown => false,
        };
        class_ok && match self.trust {
            AddressTrust::Claimed => false,
            AddressTrust::Observed | AddressTrust::Verified => true,
        }
    }

    /// Whether this address may be used from a local bootstrap file: also
    /// private addresses.
    pub fn is_routable_from_bootstrap(&self) -> (b: bool)
        ensures
            b == routable_from_bootstrap(self.class),
    {
        match self.class {
            AddressClass::Loopback | AddressClass::LinkLocal => false,
            AddressClass::Private | AddressClass::GlobalUnicast | AddressClass::Relay => true,
            AddressClass::Unknown => false,
        }
    }
}

/// Every address routable from a peer is routable from bootstrap, and
/// loopback and link-local addresses are never routable.
pub proof fn lemma_routability(c: AddressClass)
    ensures
        routable_from_peer(c) ==> routable_from_bootstrap(c),
        c == AddressClass::Loopback || c == AddressClass::LinkLocal ==> !routable_from_bootstrap(c)
            && !routable_from_peer(c),
{
}

/// Keep the addresses that are safe to route to from a remote peer, in order.
pub fn filter_peer_addresses(_peer_id: &str, addrs: &Vec<String>) -> (r: Vec<String>)
    ensures
        r@.map_values(|s: String| s@) == addrs@.map_values(|s: String| s@).filter(
            |s: Seq<char>| routable_from_peer(multiaddr_class(s)),
        ),
{
    let mut out: Vec<String> = Vec::new();
    let ghost pred = |s: Seq<char>| routable_from_peer(multiaddr_class(s));
    let mut i: usize = 0;
    while i < addrs.len()
        invariant
            i <= addrs@.len(),
            pred == (|s: Seq<char>| routable_from_peer(multiaddr_class(s))),
            out@.map_values(|s: String| s@) == addrs@.map_values(|s: String| s@).take(i as int).filter(pred),
        decreases addrs@.len() - i,
    {
        let pa = PeerAddress::new(addrs[i].as_str(), AddressTrust::Observed);
        let ghost all = addrs@.map_values(|s: String| s@);
        assert(all.take(i + 1) =~= all.take(i as int).push(all[i as int]));
        proof {
            all.take(i as int).lemma_filter_push(all[i as int], pred);
        }
        let ghost before = out@;
        if pa.is_routable_from_peer() {
            out.push(addrs[i].clone());
            assert(out@.map_values(|s: String| s@) =~= before.map_values(|s: String| s@).push(addrs@[i as int]@));
        }
        i = i + 1;
    }
    assert(addrs@.map_values(|s: String| s@).take(addrs@.len() as int) =~= addrs@.map_values(|s: String| s@));
    out
}

} // verus!
