use miasma_core::address::{
    classify_multiaddr, filter_peer_addresses, AddressClass, AddressTrust, PeerAddress,
};

#[test]
fn classify_loopback_v4() {
    assert_eq!(classify_multiaddr("/ip4/127.0.0.1/tcp/4001"), AddressClass::Loopback);
}

#[test]
fn classify_loopback_v6() {
    assert_eq!(classify_multiaddr("/ip6/::1/tcp/4001"), AddressClass::Loopback);
}

#[test]
fn classify_private_10() {
    assert_eq!(classify_multiaddr("/ip4/10.0.0.1/tcp/4001"), AddressClass::Private);
}

#[test]
fn classify_private_172() {
    assert_eq!(classify_multiaddr("/ip4/172.16.0.1/tcp/4001"), AddressClass::Private);
}

#[test]
fn classify_private_192() {
    assert_eq!(classify_multiaddr("/ip4/192.168.1.1/tcp/4001"), AddressClass::Private);
}

#[test]
fn classify_link_local_v4() {
    assert_eq!(classify_multiaddr("/ip4/169.254.0.1/tcp/4001"), AddressClass::LinkLocal);
}

#[test]
fn classify_global_unicast() {
    assert_eq!(classify_multiaddr("/ip4/8.8.8.8/tcp/4001"), AddressClass::GlobalUnicast);
}

#[test]
fn classify_dns() {
    assert_eq!(classify_multiaddr("/dns4/example.com/tcp/4001"), AddressClass::GlobalUnicast);
}

#[test]
fn loopback_not_routable_from_peer() {
    let pa = PeerAddress::new("/ip4/127.0.0.1/tcp/4001", AddressTrust::Observed);
    assert!(!pa.is_routable_from_peer());
}

#[test]
fn private_not_routable_from_peer() {
    let pa = PeerAddress::new("/ip4/10.0.0.1/tcp/4001", AddressTrust::Observed);
    assert!(!pa.is_routable_from_peer());
}

#[test]
fn private_routable_from_bootstrap() {
    let pa = PeerAddress::new("/ip4/10.0.0.1/tcp/4001", AddressTrust::Claimed);
    assert!(pa.is_routable_from_bootstrap());
}

#[test]
fn global_routable_from_peer() {
    let pa = PeerAddress::new("/ip4/8.8.8.8/tcp/4001", AddressTrust::Observed);
    assert!(pa.is_routable_from_peer());
}

#[test]
fn link_local_never_routable() {
    let pa = PeerAddress::new("/ip4/169.254.0.1/tcp/4001", AddressTrust::Verified);
    assert!(!pa.is_routable_from_peer());
    assert!(!pa.is_routable_from_bootstrap());
}

#[test]
fn filter_removes_private_and_loopback() {
    let addrs = vec![
        "/ip4/127.0.0.1/tcp/4001".to_string(),
        "/ip4/10.0.0.1/tcp/4001".to_string(),
        "/ip4/8.8.8.8/tcp/4001".to_string(),
        "/ip4/1.2.3.4/tcp/4001".to_string(),
    ];
    let filtered = filter_peer_addresses("12D3KooWPeer", &addrs);
    assert_eq!(filtered.len(), 2);
    assert_eq!(filtered[0], "/ip4/8.8.8.8/tcp/4001");
    assert_eq!(filtered[1], "/ip4/1.2.3.4/tcp/4001");
}

#[test]
fn ipv6_classes() {
    assert_eq!(classify_multiaddr("/ip6/fe80::1/tcp/1"), AddressClass::LinkLocal);
    assert_eq!(classify_multiaddr("/ip6/fd00::1/tcp/1"), AddressClass::Private);
    assert_eq!(classify_multiaddr("/ip6/2001:db8::1/tcp/1"), AddressClass::GlobalUnicast);
    assert_eq!(classify_multiaddr("/ip4/172.32.0.1/tcp/1"), AddressClass::GlobalUnicast);
}

#[test]
fn claimed_global_not_routable_from_peer() {
    let pa = PeerAddress::new("/ip4/8.8.8.8/tcp/4001", AddressTrust::Claimed);
    assert!(!pa.is_routable_from_peer());
    assert!(pa.is_routable_from_bootstrap());
}

#[test]
fn classify_every_dns_form_as_global() {
    for a in ["/dns/example.com/tcp/1", "/dns6/example.com/tcp/1", "/dnsaddr/example.com"] {
        assert_eq!(classify_multiaddr(a), AddressClass::GlobalUnicast);
    }
    assert_eq!(classify_multiaddr("/tcp/4001/dns4/example.com"), AddressClass::GlobalUnicast);
    assert_eq!(classify_multiaddr("/dns4/example.com/ip4/127.0.0.1"), AddressClass::GlobalUnicast);
}
