use miasma_core::environment::{
    detect_tls_inspector, recommend_transport, EnvironmentSnapshot, NetworkCapabilities,
    NetworkEnvironment,
};

#[test]
fn classify_open() {
    let caps = NetworkCapabilities::default();
    assert_eq!(caps.classify(), NetworkEnvironment::Open);
}

#[test]
fn classify_captive_portal() {
    let caps = NetworkCapabilities { captive_portal_detected: true, ..Default::default() };
    assert_eq!(caps.classify(), NetworkEnvironment::CaptivePortal);
}

#[test]
fn classify_corporate_proxy() {
    let caps = NetworkCapabilities {
        tls_inspection_detected: true,
        tls_inspector: Some("Zscaler".to_string()),
        ..Default::default()
    };
    assert_eq!(caps.classify(), NetworkEnvironment::CorporateProxy);
}

#[test]
fn classify_split_tunnel_vpn() {
    let caps = NetworkCapabilities {
        vpn_detected: true,
        udp_available: true,
        tcp_high_ports_available: true,
        ..Default::default()
    };
    assert_eq!(caps.classify(), NetworkEnvironment::SplitTunnelVpn);
}

#[test]
fn classify_full_tunnel_vpn() {
    let caps =
        NetworkCapabilities { vpn_detected: true, udp_available: false, ..Default::default() };
    assert_eq!(caps.classify(), NetworkEnvironment::FullTunnelVpn);
}

#[test]
fn classify_filtered_no_udp() {
    let caps = NetworkCapabilities { udp_available: false, ..Default::default() };
    assert_eq!(caps.classify(), NetworkEnvironment::Filtered);
}

#[test]
fn classify_filtered_no_high_ports() {
    let caps = NetworkCapabilities { tcp_high_ports_available: false, ..Default::default() };
    assert_eq!(caps.classify(), NetworkEnvironment::Filtered);
}

#[test]
fn captive_portal_takes_priority() {
    let caps = NetworkCapabilities {
        captive_portal_detected: true,
        tls_inspection_detected: true,
        ..Default::default()
    };
    assert_eq!(caps.classify(), NetworkEnvironment::CaptivePortal);
}

#[test]
fn detect_known_inspectors() {
    assert_eq!(detect_tls_inspector("CN=Zscaler Root CA"), Some("Zscaler"));
    assert_eq!(detect_tls_inspector("O=Netskope Inc"), Some("Netskope"));
    assert_eq!(
        detect_tls_inspector("CN=Palo Alto Networks Root CA"),
        Some("Palo Alto GlobalProtect")
    );
    assert_eq!(detect_tls_inspector("CN=DigiCert Global Root"), None);
}

#[test]
fn recommend_open() {
    let caps = NetworkCapabilities::default();
    let rec = recommend_transport(&caps);
    assert_eq!(rec.primary, "direct-libp2p");
    assert!(!rec.user_action_required);
}

#[test]
fn recommend_captive_portal_requires_action() {
    let caps = NetworkCapabilities { captive_portal_detected: true, ..Default::default() };
    let rec = recommend_transport(&caps);
    assert!(rec.user_action_required);
    assert!(rec.user_action_message.is_some());
}

#[test]
fn recommend_filtered_prefers_443() {
    let caps = NetworkCapabilities {
        udp_available: false,
        tcp_high_ports_available: false,
        port_443_available: true,
        ..Default::default()
    };
    let rec = recommend_transport(&caps);
    assert_eq!(rec.primary, "wss-tunnel");
}

#[test]
fn recommend_corporate_uses_obfuscated() {
    let caps = NetworkCapabilities {
        tls_inspection_detected: true,
        tls_inspector: Some("Zscaler".to_string()),
        ..Default::default()
    };
    let rec = recommend_transport(&caps);
    assert_eq!(rec.primary, "obfuscated-quic");
}

#[test]
fn environment_display() {
    assert_eq!(NetworkEnvironment::Open.to_string(), "open");
    assert_eq!(NetworkEnvironment::CorporateProxy.to_string(), "corporate-proxy");
    assert_eq!(NetworkEnvironment::CaptivePortal.to_string(), "captive-portal");
}

#[test]
fn snapshot_from_capabilities() {
    let caps = NetworkCapabilities { udp_available: false, ..Default::default() };
    let snap = EnvironmentSnapshot::from_capabilities(caps);
    assert_eq!(snap.environment, NetworkEnvironment::Filtered);
    assert!(snap.timestamp > 0);
}

#[test]
fn snapshot_at_fixed_time_matches_classification() {
    let caps = NetworkCapabilities { vpn_detected: true, udp_available: false, ..Default::default() };
    let snap = EnvironmentSnapshot::from_capabilities_at(caps, 1234);
    assert_eq!(snap.timestamp, 1234);
    assert_eq!(snap.environment, NetworkEnvironment::FullTunnelVpn);
}
