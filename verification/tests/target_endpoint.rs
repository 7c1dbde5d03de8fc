use tls_certificate_exporter::error::ErrorReason;
use tls_certificate_exporter::target::{
    ip_display_string, parse_ipv4, parse_port, plan_endpoints, Endpoint, IpAddress, ServerName,
    Target,
};

#[test]
fn target_parse_dns_host() {
    let t = Target::from_str("example.com:443").unwrap();
    assert_eq!(t.host, "example.com");
    assert_eq!(t.port, 443);
}

#[test]
fn target_parse_ip_host() {
    let t = Target::from_str("1.2.3.4:443").unwrap();
    assert_eq!(t.host, "1.2.3.4");
    assert_eq!(t.port, 443);
}

#[test]
fn target_parse_rightmost_colon_wins() {
    let t = Target::from_str("[::1]:8080").unwrap();
    assert_eq!(t.host, "[::1]");
    assert_eq!(t.port, 8080);
}

#[test]
fn target_parse_rejects_bad_spellings() {
    assert_eq!(Target::from_str("nocolon"), Err(ErrorReason::InvalidEndpoint));
    assert_eq!(Target::from_str("host:"), Err(ErrorReason::InvalidEndpoint));
    assert_eq!(Target::from_str("host:notaport"), Err(ErrorReason::InvalidEndpoint));
    assert_eq!(Target::from_str("host:65536"), Err(ErrorReason::InvalidEndpoint));
}

#[test]
fn port_parsing() {
    assert_eq!(parse_port("443"), Some(443));
    assert_eq!(parse_port("0"), Some(0));
    assert_eq!(parse_port("0443"), Some(443));
    assert_eq!(parse_port("65535"), Some(65535));
    assert_eq!(parse_port("65536"), None);
    assert_eq!(parse_port(""), None);
    assert_eq!(parse_port("4x3"), None);
    assert_eq!(parse_port("999999999999"), None);
}

#[test]
fn ipv4_literal_parsing() {
    assert_eq!(parse_ipv4("1.2.3.4"), Some((1, 2, 3, 4)));
    assert_eq!(parse_ipv4("0.0.0.0"), Some((0, 0, 0, 0)));
    assert_eq!(parse_ipv4("255.255.255.255"), Some((255, 255, 255, 255)));
    assert_eq!(parse_ipv4("256.1.1.1"), None);
    assert_eq!(parse_ipv4("01.2.3.4"), None);
    assert_eq!(parse_ipv4("1.2.3"), None);
    assert_eq!(parse_ipv4("1.2.3.4.5"), None);
    assert_eq!(parse_ipv4("a.b.c.d"), None);
    assert_eq!(parse_ipv4("example.com"), None);
    assert_eq!(parse_ipv4(""), None);
}

#[test]
fn ip_literal_target_resolves_to_itself() {
    // an IPv4-literal target yields exactly one endpoint whose server
    // name is that address, whatever the resolver would have said
    let target = Target::from_str("1.2.3.4:443").unwrap();
    let eps = plan_endpoints(&target, &vec![]).unwrap();
    assert_eq!(eps.len(), 1);
    assert_eq!(eps[0].ip, IpAddress::V4(1, 2, 3, 4));
    assert_eq!(eps[0].port, 443);
    assert_eq!(eps[0].server_name, ServerName::IpAddress(IpAddress::V4(1, 2, 3, 4)));
}

#[test]
fn named_target_fans_out_over_resolved_addresses() {
    let target = Target::from_str("example.com:443").unwrap();
    let ips = vec![IpAddress::V4(93, 184, 216, 34), IpAddress::V4(93, 184, 216, 35)];
    let eps = plan_endpoints(&target, &ips).unwrap();
    assert_eq!(eps.len(), 2);
    for (ep, ip) in eps.iter().zip(ips.iter()) {
        assert_eq!(ep.ip, *ip);
        assert_eq!(ep.port, 443);
        assert_eq!(ep.server_name, ServerName::DnsName(String::from("example.com")));
    }
}

#[test]
fn named_target_with_no_addresses_is_empty() {
    let target = Target::from_str("example.com:443").unwrap();
    assert_eq!(plan_endpoints(&target, &vec![]), Err(ErrorReason::ResolveEmpty));
}

#[test]
fn unusable_host_is_invalid() {
    let target = Target::from_str("bad host name:443").unwrap();
    assert_eq!(plan_endpoints(&target, &vec![IpAddress::V4(1, 1, 1, 1)]), Err(ErrorReason::InvalidEndpoint));
}

#[test]
fn display_strings() {
    let t = Target { host: String::from("example.com"), port: 443 };
    assert_eq!(t.display_string(), "example.com:443");
    assert_eq!(ip_display_string(&IpAddress::V4(10, 0, 0, 1)), "10.0.0.1");
    assert_eq!(
        ip_display_string(&IpAddress::V6(0x2001, 0xdb8, 0, 0, 0, 0, 0, 1)),
        "2001:db8:0:0:0:0:0:1"
    );
    let ep4 = Endpoint {
        ip: IpAddress::V4(10, 0, 0, 1),
        port: 8443,
        server_name: ServerName::DnsName(String::from("example.com")),
    };
    assert_eq!(ep4.display_string(), "10.0.0.1:8443");
    let ep6 = Endpoint {
        ip: IpAddress::V6(0, 0, 0, 0, 0, 0, 0, 1),
        port: 443,
        server_name: ServerName::IpAddress(IpAddress::V6(0, 0, 0, 0, 0, 0, 0, 1)),
    };
    assert_eq!(ep6.display_string(), "[0:0:0:0:0:0:0:1]:443");
}
