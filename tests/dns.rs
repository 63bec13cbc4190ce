use sensor_uplink::dns::{parse_ip4v, StaticDns};

#[test]
fn dns_parse_addresses() {
    assert_eq!(parse_ip4v("10.13.1.179"), Some([10, 13, 1, 179]));
    assert_eq!(parse_ip4v("0.0.0.0"), Some([0, 0, 0, 0]));
    assert_eq!(parse_ip4v("255.255.255.255"), Some([255, 255, 255, 255]));
    assert_eq!(parse_ip4v("+1.002.3.+4"), Some([1, 2, 3, 4]));
}

#[test]
fn dns_parse_rejects() {
    assert_eq!(parse_ip4v(""), None);
    assert_eq!(parse_ip4v("1.2.3"), None);
    assert_eq!(parse_ip4v("1.2.3.4.5"), None);
    assert_eq!(parse_ip4v("1.2.3.256"), None);
    assert_eq!(parse_ip4v("1..3.4"), None);
    assert_eq!(parse_ip4v("1.2.3.-4"), None);
    assert_eq!(parse_ip4v("1.2.3.+"), None);
    assert_eq!(parse_ip4v("a.b.c.d"), None);
    assert_eq!(parse_ip4v("1.2.3.4 "), None);
    assert_eq!(parse_ip4v("1000000000000.2.3.4"), None);
    assert_eq!(parse_ip4v("localhost"), None);
}

#[test]
fn dns_static_resolver() {
    let dns = StaticDns;
    assert_eq!(dns.get_host_by_name("192.168.0.1"), Ok([192, 168, 0, 1]));
    assert_eq!(dns.get_host_by_name("example.org"), Err(()));
    assert_eq!(dns.get_host_by_address([127, 0, 0, 1]), Err(()));
}
