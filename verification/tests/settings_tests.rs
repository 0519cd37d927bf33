use hamesh::control_datagram::ControlDatagram;
use hamesh::ip_version::{get_ip_version, IpVersion};
use hamesh::settings_models::{ClientDataSettings, PortSettings, Protocol, ServerDataSettings};
use hamesh::tunnel::parse_remote_inbound_settings;

fn field(d: &ControlDatagram, key: &str) -> Option<String> {
    d.content.get(key).cloned()
}

#[test]
fn port_settings_display() {
    let s = PortSettings { protocol: Protocol::Tcp, host_port: 8080, remote_host_port: 8081 };
    assert_eq!(s.to_display_string(), "8080:8081/tcp");
    let u = PortSettings { protocol: Protocol::Udp, host_port: 0, remote_host_port: 65535 };
    assert_eq!(u.to_display_string(), "0:65535/udp");
}

#[test]
fn equality_compares_every_field() {
    let s = PortSettings { protocol: Protocol::Tcp, host_port: 1, remote_host_port: 2 };
    assert!(s == s.clone());
    assert!(s != PortSettings { protocol: Protocol::Udp, ..s });
    assert!(s != PortSettings { host_port: 3, ..s });
    assert!(s != PortSettings { remote_host_port: 3, ..s });
    assert!(Protocol::Tcp == Protocol::Tcp);
    assert!(Protocol::Tcp != Protocol::Udp);
}

#[test]
fn protocol_names_round_trip() {
    assert_eq!(Protocol::parse(Protocol::Tcp.name()), Some(Protocol::Tcp));
    assert_eq!(Protocol::parse(Protocol::Udp.name()), Some(Protocol::Udp));
    assert_eq!(Protocol::parse("TCP"), None);
}

#[test]
fn ip_version_display_and_argument() {
    assert_eq!(IpVersion::Ipv4.to_display_string(), "IPv4");
    assert_eq!(IpVersion::Ipv6.to_display_string(), "IPv6");
    let args: Vec<String> = vec!["hamesh".into(), "p2p".into(), "ipv6".into()];
    assert_eq!(get_ip_version(&args), Some(IpVersion::Ipv6));
    let args: Vec<String> = vec!["hamesh".into(), "p2p".into(), "ipv4".into()];
    assert_eq!(get_ip_version(&args), Some(IpVersion::Ipv4));
    let args: Vec<String> = vec!["hamesh".into(), "p2p".into(), "ipv5".into()];
    assert_eq!(get_ip_version(&args), None);
}

#[test]
fn simple_datagrams() {
    let syn = ControlDatagram::syn();
    assert_eq!((syn.version, syn.kind.as_str()), (1, "SYN"));
    assert!(syn.content.pairs().is_empty());
    let hb = ControlDatagram::heart_beat();
    assert_eq!((hb.version, hb.kind.as_str()), (1, "heart_beat"));
    assert!(hb.content.pairs().is_empty());
}

#[test]
fn ack_carries_the_id_or_the_type() {
    let ack = ControlDatagram::ack(&ControlDatagram::syn());
    assert_eq!(ack.kind, "ACK");
    assert_eq!(ack.version, 1);
    assert_eq!(field(&ack, "id"), Some("SYN".to_string()));
    assert_eq!(ack.content.pairs().len(), 1);
    let data = ControlDatagram::client_data(
        "tcp_client_1_2_3",
        3,
        ClientDataSettings { protocol: Protocol::Tcp, host_port: 1, host_client_port: 2 },
        "AA==",
    );
    assert_eq!(field(&ControlDatagram::ack(&data), "id"), Some("tcp_client_1_2_3".to_string()));
}

#[test]
fn input_port_fields_and_round_trip() {
    let s = PortSettings { protocol: Protocol::Udp, host_port: 25565, remote_host_port: 1234 };
    let d = ControlDatagram::input_port("input_port_25565:1234/udp", &s);
    assert_eq!(d.kind, "input_port");
    assert_eq!(field(&d, "id"), Some("input_port_25565:1234/udp".to_string()));
    assert_eq!(field(&d, "protocol"), Some("udp".to_string()));
    assert_eq!(field(&d, "hostPort"), Some("25565".to_string()));
    assert_eq!(field(&d, "remoteHostPort"), Some("1234".to_string()));
    assert_eq!(parse_remote_inbound_settings(&d), Ok(s));
}

#[test]
fn remote_inbound_settings_reject_unknown_protocols() {
    let mut d = ControlDatagram::input_port(
        "x",
        &PortSettings { protocol: Protocol::Tcp, host_port: 1, remote_host_port: 2 },
    );
    d.content.insert("protocol".to_string(), "sctp".to_string());
    assert_eq!(parse_remote_inbound_settings(&d), Err("invalid protocol sctp".to_string()));
}

#[test]
fn data_datagram_fields() {
    let c = ControlDatagram::client_data(
        "id1",
        7,
        ClientDataSettings { protocol: Protocol::Udp, host_port: 80, host_client_port: 49152 },
        "QUJD",
    );
    assert_eq!(c.kind, "client_data");
    assert_eq!(field(&c, "sequence"), Some("7".to_string()));
    assert_eq!(field(&c, "protocol"), Some("udp".to_string()));
    assert_eq!(field(&c, "hostPort"), Some("80".to_string()));
    assert_eq!(field(&c, "hostClientPort"), Some("49152".to_string()));
    assert_eq!(field(&c, "base64"), Some("QUJD".to_string()));
    let s = ControlDatagram::server_data(
        "id2",
        4294967295,
        ServerDataSettings { protocol: Protocol::Tcp, remote_host_port: 81, remote_host_client_port: 5 },
        "",
    );
    assert_eq!(s.kind, "server_data");
    assert_eq!(field(&s, "sequence"), Some("4294967295".to_string()));
    assert_eq!(field(&s, "remoteHostPort"), Some("81".to_string()));
    assert_eq!(field(&s, "remoteHostClientPort"), Some("5".to_string()));
    assert_eq!(s.content.pairs().len(), 6);
}
