use skunk::address::{Host, TcpAddress};
use skunk::proxy::{Filter, Passthrough, PcapPlan, ProxyAction, plan, plan_pcap};

fn addr(host: &str, port: u16) -> TcpAddress {
    TcpAddress { host: Host::Hostname(host.as_bytes().to_vec()), port }
}

#[test]
fn all_matches_proxied_ports_only() {
    let filter = Filter::All;
    assert!(filter.matches(&addr("example.com", 80)));
    assert!(filter.matches(&addr("example.com", 443)));
    // A port outside 80 and 443 is never intercepted, even by `All`.
    assert!(!filter.matches(&addr("example.com", 8080)));
    assert!(!filter.matches(&addr("example.com", 22)));
}

#[test]
fn listed_target_matches_and_others_do_not() {
    let filter = Filter::Targets(vec![addr("example.com", 443)]);
    assert!(filter.matches(&addr("example.com", 443)));
    assert!(!filter.matches(&addr("other.com", 443)));
    assert!(!filter.matches(&addr("example.com", 80)));
}

#[test]
fn from_targets_defaults_to_all() {
    let filter = Filter::from_targets(Vec::new());
    assert!(filter.matches(&addr("anything.example", 80)));
    let filter = Filter::from_targets(vec![addr("example.com", 443)]);
    assert!(!filter.matches(&addr("other.com", 443)));
}

#[test]
fn matching_connection_is_intercepted_with_tls_on_443() {
    let filter = Filter::All;
    assert_eq!(
        plan(&filter, &addr("example.com", 443)),
        ProxyAction::Intercept { decrypt_tls: true }
    );
    assert_eq!(
        plan(&filter, &addr("example.com", 80)),
        ProxyAction::Intercept { decrypt_tls: false }
    );
}

#[test]
fn out_of_filter_destination_passes_through() {
    let filter = Filter::Targets(vec![addr("example.com", 443)]);
    assert_eq!(plan(&filter, &addr("other.com", 443)), ProxyAction::Passthrough);
}

#[test]
fn passthrough_copies_bytes_exactly() {
    let chunk: Vec<u8> = vec![0, 1, 2, 254, 255, 7];
    assert_eq!(Passthrough.forward(&chunk), chunk);
    let empty: Vec<u8> = Vec::new();
    assert_eq!(Passthrough.forward(&empty), empty);
}

#[test]
fn ipv4_and_ipv6_hosts_compare_structurally() {
    let a = TcpAddress { host: Host::Ipv4([10, 0, 0, 1]), port: 443 };
    let b = TcpAddress { host: Host::Ipv4([10, 0, 0, 1]), port: 443 };
    let c = TcpAddress { host: Host::Ipv4([10, 0, 0, 2]), port: 443 };
    let filter = Filter::Targets(vec![b]);
    assert!(filter.matches(&a));
    assert!(!filter.matches(&c));
}

#[test]
fn pcap_disabled_when_not_asked_for() {
    match plan_pcap(false, Some(b"wlan0".to_vec()), true) {
        PcapPlan::Disabled => {}
        other => panic!("expected Disabled, got {:?}", other),
    }
}

#[test]
fn pcap_lists_interfaces_without_a_name_or_without_a_match() {
    match plan_pcap(true, None, false) {
        PcapPlan::ListInterfaces => {}
        other => panic!("expected ListInterfaces, got {:?}", other),
    }
    match plan_pcap(true, Some(b"missing0".to_vec()), false) {
        PcapPlan::ListInterfaces => {}
        other => panic!("expected ListInterfaces, got {:?}", other),
    }
}

#[test]
fn pcap_captures_on_the_named_interface() {
    match plan_pcap(true, Some(b"wlan0".to_vec()), true) {
        PcapPlan::Capture(name) => assert_eq!(name, b"wlan0".to_vec()),
        other => panic!("expected Capture, got {:?}", other),
    }
}
