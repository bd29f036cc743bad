use vstd::prelude::*;
use crate::clock::now_unix_secs;
use crate::text::{chars_of, contains_chars, contains_seq, lowercase_of, owned, push_str, to_lowercase};

verus! {

/// Classification of the current network environment.
#[derive(Debug, Clone, Copy, PartialEq, Eq, Hash)]
pub enum NetworkEnvironment {
    /// No restrictions detected.
    Open,
    /// Corporate proxy detected (TLS inspection).
    CorporateProxy,
    /// Split-tunnel VPN.
    SplitTunnelVpn,
    /// Full-tunnel VPN.
    FullTunnelVpn,
    /// Captive portal detected.
    CaptivePortal,
    /// Active filtering detected.
    Filtered,
    /// Not yet determined.
    Unknown,
}

/// The display name of an environment.
pub open spec fn environment_name(e: NetworkEnvironment) -> Seq<char> {
    match e {
        NetworkEnvironment::Open => "open"@,
        NetworkEnvironment::CorporateProxy => "corporate-proxy"@,
        NetworkEnvironment::SplitTunnelVpn => "split-tunnel-vpn"@,
        NetworkEnvironment::FullTunnelVpn => "full-tunnel-vpn"@,
        NetworkEnvironment::CaptivePortal => "captive-portal"@,
        NetworkEnvironment::Filtered => "filtered"@,
        NetworkEnvironment::Unknown => "unknown"@,
    }
}

impl NetworkEnvironment {
    /// The display name of this environment (e.g. `"captive-portal"`).
    pub fn as_str(&self) -> (s: &'static str)
        ensures
            s@ == environment_name(*self),
    {
        match self {
            NetworkEnvironment::Open => "open",
            NetworkEnvironment::CorporateProxy => "corporate-proxy",
            NetworkEnvironment::SplitTunnelVpn => "split-tunnel-vpn",
            NetworkEnvironment::FullTunnelVpn => "full-tunnel-vpn",
            NetworkEnvironment::CaptivePortal => "captive-portal",
            NetworkEnvironment::Filtered => "filtered",
            NetworkEnvironment::Unknown => "unknown",
        }
    }

    /// The display name of this environment as an owned string.
    pub fn to_string(&self) -> (s: String)
        ensures
            s@ == environment_name(*self),
    {
        owned(self.as_str())
    }
}

/// Detected network capabilities and restrictions.
#[derive(Debug, Clone)]
pub struct NetworkCapabilities {
    /// Whether UDP traffic can flow (needed for QUIC).
    pub udp_available: bool,
    /// Whether TCP to high ports works.
    pub tcp_high_ports_available: bool,
    /// Whether port 443 is reachable.
    pub port_443_available: bool,
    /// Whether port 80 is reachable.
    pub port_80_available: bool,
    /// Whether TLS inspection (MITM) was detected.
    pub tls_inspection_detected: bool,
    /// Name of the detected TLS inspector.
    pub tls_inspector: Option<String>,
    /// Whether a captive portal redirect was detected.
    pub captive_portal_detected: bool,
    /// Whether a VPN interface was detected.
    pub vpn_detected: bool,
}

impl Default for NetworkCapabilities {
    /// Everything open until proven otherwise.
    fn default() -> (c: Self)
        ensures
            c.udp_available && c.tcp_high_ports_available && c.port_443_available
                && c.port_80_available,
            !c.tls_inspection_detected && c.tls_inspector is None,
            !c.captive_portal_detected && !c.vpn_detected,
    {
        NetworkCapabilities {
            udp_available: true,
            tcp_high_ports_available: true,
            port_443_available: true,
            port_80_available: true,
            tls_inspection_detected: false,
            tls_inspector: None,
            captive_portal_detected: false,
            vpn_detected: false,
        }
    }
}

/// The environment that a set of capabilities is classified as: captive
/// portal first, then TLS inspection, then VPN (split when UDP and high
/// ports work), then filtering, else open.
pub open spec fn classify_spec(c: NetworkCapabilities) -> NetworkEnvironment {
    if c.captive_portal_detected {
        NetworkEnvironment::CaptivePortal
    } else if c.tls_inspection_detected {
        NetworkEnvironment::CorporateProxy
    } else if c.vpn_detected {
        if c.udp_available && c.tcp_high_ports_available {
            NetworkEnvironment::SplitTunnelVpn
        } else {
            NetworkEnvironment::FullTunnelVpn
        }
    } else if !c.udp_available || !c.tcp_high_ports_available {
        NetworkEnvironment::Filtered
    } else {
        NetworkEnvironment::Open
    }
}

impl NetworkCapabilities {
    /// Derive the network environment from detected capabilities.
    pub fn classify(&self) -> (env: NetworkEnvironment)
        ensures
            env == classify_spec(*self),
    {
        if self.captive_portal_detected {
            return NetworkEnvironment::CaptivePortal;
        }
        if self.tls_inspection_detected {
            return NetworkEnvironment::CorporateProxy;
        }
        if self.vpn_detected {
            if self.udp_available && self.tcp_high_ports_available {
                return NetworkEnvironment::SplitTunnelVpn;
            }
            return NetworkEnvironment::FullTunnelVpn;
        }
        if !self.udp_available || !self.tcp_high_ports_available {
            return NetworkEnvironment::Filtered;
        }
        NetworkEnvironment::Open
    }
}

/// A VPN is split-tunnelled exactly when the network it runs over would be
/// open without it: with no captive portal and no TLS inspection, a VPN
/// classifies as split tunnel when the same capabilities without the VPN
/// classify as open (UDP and high-port TCP both work), and as full tunnel
/// when they classify as filtered.
pub proof fn lemma_vpn_split_iff_open(c: NetworkCapabilities)
    requires
        c.vpn_detected,
        !c.captive_portal_detected,
        !c.tls_inspection_detected,
    ensures
        classify_spec(c) == NetworkEnvironment::SplitTunnelVpn
            <==> classify_spec(NetworkCapabilities { vpn_detected: false, ..c }) == NetworkEnvironment::Open,
        classify_spec(c) == NetworkEnvironment::FullTunnelVpn
            <==> classify_spec(NetworkCapabilities { vpn_detected: false, ..c }) == NetworkEnvironment::Filtered,
        !c.tcp_high_ports_available || !c.udp_available ==> classify_spec(c) == NetworkEnvironment::FullTunnelVpn,
{
}

/// The detections take precedence in order: a captive portal decides the
/// environment whatever else holds, then TLS inspection, then a VPN; only
/// with none of them is a network open or filtered.
pub proof fn lemma_classification_precedence(c: NetworkCapabilities)
    ensures
        c.captive_portal_detected ==> classify_spec(c) == NetworkEnvironment::CaptivePortal,
        !c.captive_portal_detected && c.tls_inspection_detected ==> classify_spec(c)
            == NetworkEnvironment::CorporateProxy,
        !c.captive_portal_detected && !c.tls_inspection_detected && c.vpn_detected ==> (classify_spec(c)
            == NetworkEnvironment::SplitTunnelVpn || classify_spec(c) == NetworkEnvironment::FullTunnelVpn),
        classify_spec(c) == NetworkEnvironment::Open ==> c.udp_available && c.tcp_high_ports_available,
        !c.captive_portal_detected && !c.tls_inspection_detected && !c.vpn_detected ==> (classify_spec(c)
            == NetworkEnvironment::Open <==> c.udp_available && c.tcp_high_ports_available),
        !c.captive_portal_detected && !c.tls_inspection_detected && !c.vpn_detected ==> (classify_spec(c)
            == NetworkEnvironment::Filtered <==> !(c.udp_available && c.tcp_high_ports_available)),
{
}

// ─── Known TLS inspectors ───────────────────────────────────────────────────

/// Number of known TLS inspection products.
pub const KNOWN_TLS_INSPECTOR_COUNT: usize = 12;

/// The lowercase issuer pattern of the `i`-th known TLS inspector.
pub open spec fn inspector_pattern(i: int) -> Seq<char> {
    if i == 0 { "zscaler"@ }
    else if i == 1 { "netskope"@ }
    else if i == 2 { "palo alto"@ }
    else if i == 3 { "forcepoint"@ }
    else if i == 4 { "symantec"@ }
    else if i == 5 { "bluecoat"@ }
    else if i == 6 { "fortinet"@ }
    else if i == 7 { "barracuda"@ }
    else if i == 8 { "sophos"@ }
    else if i == 9 { "mcafee"@ }
    else if i == 10 { "websense"@ }
    else { "checkpoint"@ }
}

/// The product name of the `i`-th known TLS inspector.
pub open spec fn inspector_name(i: int) -> Seq<char> {
    if i == 0 { "Zscaler"@ }
    else if i == 1 { "Netskope"@ }
    else if i == 2 { "Palo Alto GlobalProtect"@ }
    else if i == 3 { "Forcepoint"@ }
    else if i == 4 { "Symantec/Broadcom"@ }
    else if i == 5 { "Blue Coat/Symantec"@ }
    else if i == 6 { "Fortinet"@ }
    else if i == 7 { "Barracuda"@ }
    else if i == 8 { "Sophos"@ }
    else if i == 9 { "McAfee/Trellix"@ }
    else if i == 10 { "Websense/Forcepoint"@ }
    else { "Check Point"@ }
}

/// The `i`-th entry of the known TLS inspector table: (pattern, name).
pub fn known_tls_inspector(i: usize) -> (r: (&'static str, &'static str))
    requires
        i < KNOWN_TLS_INSPECTOR_COUNT,
    ensures
        r.0@ == inspector_pattern(i as int),
        r.1@ == inspector_name(i as int),
{
    if i == 0 { ("zscaler", "Zscaler") }
    else if i == 1 { ("netskope", "Netskope") }
    else if i == 2 { ("palo alto", "Palo Alto GlobalProtect") }
    else if i == 3 { ("forcepoint", "Forcepoint") }
    else if i == 4 { ("symantec", "Symantec/Broadcom") }
    else if i == 5 { ("bluecoat", "Blue Coat/Symantec") }
    else if i == 6 { ("fortinet", "Fortinet") }
    else if i == 7 { ("barracuda", "Barracuda") }
    else if i == 8 { ("sophos", "Sophos") }
    else if i == 9 { ("mcafee", "McAfee/Trellix") }
    else if i == 10 { ("websense", "Websense/Forcepoint") }
    else { ("checkpoint", "Check Point") }
}

/// Whether the lowercased issuer contains the `i`-th known pattern.
pub open spec fn issuer_matches(issuer: Seq<char>, i: int) -> bool {
    contains_seq(lowercase_of(issuer), inspector_pattern(i))
}

/// Check if a certificate issuer string matches a known TLS inspector: the
/// name of the first table entry whose pattern occurs in the lowercased
/// issuer, or `None` when no pattern occurs.
pub fn detect_tls_inspector(issuer: &str) -> (r: Option<&'static str>)
    ensures
        match r {
            Some(name) => exists|i: int|
                0 <= i < KNOWN_TLS_INSPECTOR_COUNT && issuer_matches(issuer@, i)
                    && name@ == inspector_name(i)
                    && (forall|j: int| 0 <= j < i ==> !issuer_matches(issuer@, j)),
            None => forall|i: int|
                0 <= i < KNOWN_TLS_INSPECTOR_COUNT ==> !issuer_matches(issuer@, i),
        },
{
    let lower = to_lowercase(issuer);
    let hay = chars_of(lower.as_str());
    let mut i: usize = 0;
    while i < KNOWN_TLS_INSPECTOR_COUNT
        invariant
            hay@ == lowercase_of(issuer@),
            i <= KNOWN_TLS_INSPECTOR_COUNT,
            forall|j: int| 0 <= j < i ==> !issuer_matches(issuer@, j),
        decreases KNOWN_TLS_INSPECTOR_COUNT - i,
    {
        let (pattern, name) = known_tls_inspector(i);
        let needle = chars_of(pattern);
        if contains_chars(&hay, &needle) {
            return Some(name);
        }
        i = i + 1;
    }
    None
}

// ─── Transport recommendation ───────────────────────────────────────────────

/// Recommended transport adaptation based on detected environment.
#[derive(Debug, Clone)]
pub struct TransportRecommendation {
    /// Recommended primary transport.
    pub primary: String,
    /// Recommended fallback transports (in order).
    pub fallbacks: Vec<String>,
    /// Human-readable explanation.
    pub reason: String,
    /// Whether the user needs to take action (e.g., captive portal auth).
    pub user_action_required: bool,
    /// Action message for the user, if any.
    pub user_action_message: Option<String>,
}

/// The characters of a list of strings.
pub open spec fn strings_view(v: Seq<String>) -> Seq<Seq<char>> {
    v.map_values(|s: String| s@)
}

/// "ok" or "blocked".
pub open spec fn ok_or_blocked(b: bool) -> Seq<char> {
    if b { "ok"@ } else { "blocked"@ }
}

/// The primary transport recommended for some capabilities.
pub open spec fn primary_spec(c: NetworkCapabilities) -> Seq<char> {
    match classify_spec(c) {
        NetworkEnvironment::Open => "direct-libp2p"@,
        NetworkEnvironment::CorporateProxy => "obfuscated-quic"@,
        NetworkEnvironment::SplitTunnelVpn | NetworkEnvironment::FullTunnelVpn =>
            if c.udp_available { "direct-libp2p"@ } else { "wss-tunnel"@ },
        NetworkEnvironment::CaptivePortal => "none"@,
        NetworkEnvironment::Filtered =>
            if c.port_443_available { "wss-tunnel"@ } else { "obfuscated-quic"@ },
        NetworkEnvironment::Unknown => "direct-libp2p"@,
    }
}

/// The fallback transports recommended for some capabilities, in order.
pub open spec fn fallbacks_spec(c: NetworkCapabilities) -> Seq<Seq<char>> {
    match classify_spec(c) {
        NetworkEnvironment::Open => seq!["tcp-direct"@],
        NetworkEnvironment::CorporateProxy => seq!["wss-tunnel"@, "relay-hop"@],
        NetworkEnvironment::SplitTunnelVpn | NetworkEnvironment::FullTunnelVpn =>
            seq!["obfuscated-quic"@, "relay-hop"@],
        NetworkEnvironment::CaptivePortal => Seq::empty(),
        NetworkEnvironment::Filtered => seq!["relay-hop"@],
        NetworkEnvironment::Unknown =>
            seq!["tcp-direct"@, "wss-tunnel"@, "obfuscated-quic"@, "relay-hop"@],
    }
}

/// The explanation given with a recommendation.
pub open spec fn reason_spec(c: NetworkCapabilities) -> Seq<char> {
    match classify_spec(c) {
        NetworkEnvironment::Open => "No restrictions detected"@,
        NetworkEnvironment::CorporateProxy => "TLS inspection detected"@ + match c.tls_inspector {
            Some(i) => " ("@ + i@ + ")"@,
            None => Seq::empty(),
        },
        NetworkEnvironment::SplitTunnelVpn | NetworkEnvironment::FullTunnelVpn =>
            "VPN detected ("@ + environment_name(classify_spec(c)) + ")"@,
        NetworkEnvironment::CaptivePortal =>
            "Captive portal detected \u{2014} authentication required"@,
        NetworkEnvironment::Filtered =>
            "Filtering detected: UDP="@ + ok_or_blocked(c.udp_available) + ", high-port TCP="@
                + ok_or_blocked(c.tcp_high_ports_available) + ", 443="@ + ok_or_blocked(
                c.port_443_available,
            ),
        NetworkEnvironment::Unknown =>
            "Environment not yet determined \u{2014} trying all transports"@,
    }
}

/// The message asking the user to sign in at a captive portal.
pub open spec fn captive_portal_message() -> Seq<char> {
    "Network requires authentication. Please open a browser and complete sign-in, then Miasma will retry automatically."@
}

/// Whether a recommendation is the one that `recommend_transport` gives for `c`.
pub open spec fn recommendation_for(c: NetworkCapabilities, r: TransportRecommendation) -> bool {
    &&& r.primary@ == primary_spec(c)
    &&& strings_view(r.fallbacks@) == fallbacks_spec(c)
    &&& r.reason@ == reason_spec(c)
    &&& r.user_action_required == (classify_spec(c) == NetworkEnvironment::CaptivePortal)
    &&& match r.user_action_message {
        Some(m) => classify_spec(c) == NetworkEnvironment::CaptivePortal
            && m@ == captive_portal_message(),
        None => classify_spec(c) != NetworkEnvironment::CaptivePortal,
    }
}

fn ok_or_blocked_str(b: bool) -> (s: &'static str)
    ensures
        s@ == ok_or_blocked(b),
{
    if b { "ok" } else { "blocked" }
}

fn string_list1(a: &str) -> (v: Vec<String>)
    ensures
        strings_view(v@) == seq![a@],
{
    let mut v: Vec<String> = Vec::new();
    v.push(owned(a));
    assert(strings_view(v@) =~= seq![a@]);
    v
}

fn string_list2(a: &str, b: &str) -> (v: Vec<String>)
    ensures
        strings_view(v@) == seq![a@, b@],
{
    let mut v: Vec<String> = Vec::new();
    v.push(owned(a));
    v.push(owned(b));
    assert(strings_view(v@) =~= seq![a@, b@]);
    v
}

fn string_list4(a: &str, b: &str, c: &str, d: &str) -> (v: Vec<String>)
    ensures
        strings_view(v@) == seq![a@, b@, c@, d@],
{
    let mut v: Vec<String> = Vec::new();
    v.push(owned(a));
    v.push(owned(b));
    v.push(owned(c));
    v.push(owned(d));
    assert(strings_view(v@) =~= seq![a@, b@, c@, d@]);
    v
}

/// Generate transport recommendations based on network capabilities.
pub fn recommend_transport(caps: &NetworkCapabilities) -> (r: TransportRecommendation)
    ensures
        recommendation_for(*caps, r),
{
    let env = caps.classify();
    match env {
        NetworkEnvironment::Open => TransportRecommendation {
            primary: owned("direct-libp2p"),
            fallbacks: string_list1("tcp-direct"),
            reason: owned("No restrictions detected"),
            user_action_required: false,
            user_action_message: None,
        },
        NetworkEnvironment::CorporateProxy => {
            let mut reason = owned("TLS inspection detected");
            match &caps.tls_inspector {
                Some(i) => {
                    push_str(&mut reason, " (");
                    push_str(&mut reason, i.as_str());
                    push_str(&mut reason, ")");
                },
                None => {},
            }
            assert(reason@ == reason_spec(*caps));
            TransportRecommendation {
                primary: owned("obfuscated-quic"),
                fallbacks: string_list2("wss-tunnel", "relay-hop"),
                reason,
                user_action_required: false,
                user_action_message: None,
            }
        },
        NetworkEnvironment::SplitTunnelVpn | NetworkEnvironment::FullTunnelVpn => {
            let primary = if caps.udp_available {
                owned("direct-libp2p")
            } else {
                owned("wss-tunnel")
            };
            let mut reason = owned("VPN detected (");
            push_str(&mut reason, env.as_str());
            push_str(&mut reason, ")");
            TransportRecommendation {
                primary,
                fallbacks: string_list2("obfuscated-quic", "relay-hop"),
                reason,
                user_action_required: false,
                user_action_message: None,
            }
        },
        NetworkEnvironment::CaptivePortal => {
            let fallbacks: Vec<String> = Vec::new();
            assert(strings_view(fallbacks@) =~= Seq::<Seq<char>>::empty());
            TransportRecommendation {
                primary: owned("none"),
                fallbacks,
                reason: owned("Captive portal detected \u{2014} authentication required"),
                user_action_required: true,
                user_action_message: Some(
                    owned(
                        "Network requires authentication. Please open a browser and complete sign-in, then Miasma will retry automatically.",
                    ),
                ),
            }
        },
        NetworkEnvironment::Filtered => {
            let primary = if caps.port_443_available {
                owned("wss-tunnel")
            } else {
                owned("obfuscated-quic")
            };
            let mut reason = owned("Filtering detected: UDP=");
            push_str(&mut reason, ok_or_blocked_str(caps.udp_available));
            push_str(&mut reason, ", high-port TCP=");
            push_str(&mut reason, ok_or_blocked_str(caps.tcp_high_ports_available));
            push_str(&mut reason, ", 443=");
            push_str(&mut reason, ok_or_blocked_str(caps.port_443_available));
            TransportRecommendation {
                primary,
                fallbacks: string_list1("relay-hop"),
                reason,
                user_action_required: false,
                user_action_message: None,
            }
        },
        NetworkEnvironment::Unknown => TransportRecommendation {
            primary: owned("direct-libp2p"),
            fallbacks: string_list4("tcp-direct", "wss-tunnel", "obfuscated-quic", "relay-hop"),
            reason: owned("Environment not yet determined \u{2014} trying all transports"),
            user_action_required: false,
            user_action_message: None,
        },
    }
}

// ─── Environment snapshot ───────────────────────────────────────────────────

/// Timestamped snapshot of the detected network environment.
#[derive(Debug, Clone)]
pub struct EnvironmentSnapshot {
    /// Unix timestamp of this snapshot.
    pub timestamp: u64,
    /// Detected environment type.
    pub environment: NetworkEnvironment,
    /// Detailed capabilities.
    pub capabilities: NetworkCapabilities,
    /// Transport recommendation.
    pub recommendation: TransportRecommendation,
}

impl EnvironmentSnapshot {
    /// Create a snapshot from capabilities, stamped with the given time.
    pub fn from_capabilities_at(caps: NetworkCapabilities, timestamp: u64) -> (s: Self)
        ensures
            s.timestamp == timestamp,
            s.environment == classify_spec(caps),
            s.capabilities == caps,
            recommendation_for(caps, s.recommendation),
    {
        let environment = caps.classify();
        let recommendation = recommend_transport(&caps);
        EnvironmentSnapshot { timestamp, environment, capabilities: caps, recommendation }
    }

    /// Create a snapshot from capabilities, stamped with the current time.
    pub fn from_capabilities(caps: NetworkCapabilities) -> (s: Self)
        ensures
            s.environment == classify_spec(caps),
            s.capabilities == caps,
            recommendation_for(caps, s.recommendation),
    {
        let timestamp = now_unix_secs();
        Self::from_capabilities_at(caps, timestamp)
    }
}

impl Default for EnvironmentSnapshot {
    /// A snapshot of the default (open) capabilities, stamped now.
    fn default() -> (s: Self)
        ensures
            s.environment == NetworkEnvironment::Open,
    {
        Self::from_capabilities(NetworkCapabilities::default())
    }
}

} // verus!
