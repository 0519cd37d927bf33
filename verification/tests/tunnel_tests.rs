use hamesh::arguments::{check_arguments, get_settings, parse_forwarding, ArgumentCheck};
use hamesh::control_datagram::ControlDatagram;
use hamesh::handshake::{Handshake, SynStep};
use hamesh::ip_version::IpVersion;
use hamesh::port_exchange::PortExchange;
use hamesh::settings_models::{ClientDataSettings, PortSettings, Protocol, ServerDataSettings};
use hamesh::tunnel::{outbound_key, route, Arrival, ClientDataRoute, InboundRegistry, Route, RouteError, TunnelReceiver};

fn field(d: &ControlDatagram, key: &str) -> Option<String> {
    d.content.get(key).cloned()
}

fn ack_of(id: &str) -> ControlDatagram {
    let mut content = hamesh::content::Content::new();
    content.insert("id".to_string(), id.to_string());
    ControlDatagram { version: 1, kind: "ACK".to_string(), content }
}

fn args(words: &[&str]) -> Vec<String> {
    words.iter().map(|w| w.to_string()).collect()
}

#[test]
fn handshake_completes_in_either_order() {
    let mut h = Handshake::new();
    assert_eq!(h.syn_step(), SynStep::SendSyn);
    let reply = h.on_datagram(&ControlDatagram::syn()).unwrap();
    assert_eq!(reply.kind, "ACK");
    assert_eq!(field(&reply, "id"), Some("SYN".to_string()));
    assert!(h.syn_received && !h.is_established());
    assert_eq!(h.syn_step(), SynStep::SendSyn);
    assert!(h.on_datagram(&ack_of("SYN")).is_none());
    assert!(h.is_established());
    assert_eq!(h.syn_step(), SynStep::Stop);

    let mut h = Handshake::new();
    h.on_datagram(&ack_of("SYN"));
    assert_eq!(h.syn_step(), SynStep::Wait);
    h.on_datagram(&ack_of("other"));
    h.on_datagram(&ControlDatagram::heart_beat());
    assert!(!h.is_established());
    h.on_datagram(&ControlDatagram::syn());
    assert!(h.is_established());
}

#[test]
fn port_exchange_announces_until_acknowledged_and_matches() {
    let inbound = vec![
        PortSettings { protocol: Protocol::Tcp, host_port: 25565, remote_host_port: 1234 },
        PortSettings { protocol: Protocol::Udp, host_port: 53, remote_host_port: 5353 },
    ];
    let outbound = vec![
        PortSettings { protocol: Protocol::Tcp, host_port: 1234, remote_host_port: 25565 },
        PortSettings { protocol: Protocol::Udp, host_port: 9999, remote_host_port: 9998 },
    ];
    let mut x = PortExchange::new(inbound.clone(), outbound.clone());
    let first = x.next_announcement().unwrap();
    assert_eq!(field(&first, "id"), Some("input_port_25565:1234/tcp".to_string()));
    // A wrong acknowledgement changes nothing.
    assert!(x.on_datagram(&ack_of("input_port_53:5353/udp")).is_none());
    assert_eq!(field(&x.next_announcement().unwrap(), "id"), Some("input_port_25565:1234/tcp".to_string()));
    x.on_datagram(&ack_of("input_port_25565:1234/tcp"));
    assert_eq!(field(&x.next_announcement().unwrap(), "id"), Some("input_port_53:5353/udp".to_string()));
    x.on_datagram(&ack_of("input_port_53:5353/udp"));
    assert!(x.next_announcement().is_none());
    // The peer announces its inbound 1234 -> 25565, mirrored by our first outbound.
    let remote = PortSettings { protocol: Protocol::Tcp, host_port: 25565, remote_host_port: 1234 };
    let announcement = ControlDatagram::input_port("input_port_25565:1234/tcp", &remote);
    let reply = x.on_datagram(&announcement).unwrap();
    assert_eq!(field(&reply, "id"), Some("input_port_25565:1234/tcp".to_string()));
    x.on_datagram(&announcement);
    assert_eq!(x.outbound_matches(), vec![outbound[0]]);
    assert_eq!(x.unmatched_outbound(), vec![outbound[1]]);
    assert!(!x.receiver_done());
    for _ in 0..9 {
        x.on_idle();
    }
    assert!(!x.receiver_done());
    x.on_idle();
    assert!(x.receiver_done());
    // Any datagram received resets the count of idle polls.
    x.on_datagram(&announcement);
    assert!(!x.receiver_done());
    // A datagram that is neither an acknowledgement nor an announcement stops the receiver,
    // and with it the announcements.
    let mut y = PortExchange::new(inbound, outbound);
    assert!(y.on_datagram(&ControlDatagram::heart_beat()).is_some());
    assert!(y.receiver_done());
    assert!(y.next_announcement().is_none());
}

#[test]
fn port_exchange_stops_announcing_when_the_receiver_stops() {
    let inbound = vec![PortSettings { protocol: Protocol::Tcp, host_port: 1, remote_host_port: 2 }];
    let mut x = PortExchange::new(inbound, Vec::new());
    assert!(x.next_announcement().is_some());
    x.stop_receiver();
    assert!(x.next_announcement().is_none());
}

#[test]
fn routes_of_complete_datagrams() {
    let (reply, r) = route(&ack_of("abc"));
    assert!(reply.is_none());
    assert!(matches!(r, Route::Ack(id) if id == "abc"));
    let data = ControlDatagram::client_data(
        "i",
        0,
        ClientDataSettings { protocol: Protocol::Tcp, host_port: 1, host_client_port: 2 },
        "",
    );
    let (reply, r) = route(&data);
    assert_eq!(field(&reply.unwrap(), "id"), Some("i".to_string()));
    assert!(matches!(r, Route::ClientData));
    let server = ControlDatagram::server_data(
        "s",
        0,
        ServerDataSettings { protocol: Protocol::Udp, remote_host_port: 1, remote_host_client_port: 2 },
        "",
    );
    assert!(matches!(route(&server).1, Route::ServerData));
    assert_eq!(outbound_key(&server), Ok((1, Protocol::Udp)));
    let settings = PortSettings { protocol: Protocol::Udp, host_port: 7, remote_host_port: 8 };
    let announcement = ControlDatagram::input_port("a", &settings);
    assert!(matches!(route(&announcement).1, Route::RemoteInbound(Ok(s)) if s == settings));
    assert!(matches!(route(&ControlDatagram::heart_beat()).1, Route::Skipped));
}

#[test]
fn outbound_key_errors() {
    let mut d = ControlDatagram::server_data(
        "s",
        0,
        ServerDataSettings { protocol: Protocol::Tcp, remote_host_port: 1, remote_host_client_port: 2 },
        "",
    );
    d.content.insert("protocol".to_string(), "x".to_string());
    assert_eq!(outbound_key(&d), Err(RouteError::InvalidProtocol));
    d.content.insert("remoteHostPort".to_string(), "70000".to_string());
    assert_eq!(outbound_key(&d), Err(RouteError::InvalidPort));
}

#[test]
fn receiver_passes_whole_datagrams_and_rejects_bad_indexes() {
    let mut r = TunnelReceiver::new();
    let syn = ControlDatagram::syn();
    assert!(r.accepts(&syn));
    assert!(matches!(r.on_datagram(syn), Arrival::Whole(d) if d.kind == "SYN"));
    let mut content = hamesh::content::Content::new();
    content.insert("index".to_string(), "first".to_string());
    let bad = ControlDatagram { version: 1, kind: "fragment".to_string(), content };
    assert!(r.accepts(&bad));
    assert!(matches!(r.on_datagram(bad), Arrival::MalformedIndex));
    let mut content = hamesh::content::Content::new();
    for (k, v) in [("contentType", "control_datagram"), ("index", "0"), ("length", "2"), ("digest", "d"), ("data", "{")] {
        content.insert(k.to_string(), v.to_string());
    }
    let first = ControlDatagram { version: 1, kind: "fragment".to_string(), content: content.clone() };
    assert!(matches!(r.on_datagram(first), Arrival::Pending));
    content.insert("index".to_string(), "1".to_string());
    content.insert("data".to_string(), "}".to_string());
    let second = ControlDatagram { version: 1, kind: "fragment".to_string(), content };
    assert!(matches!(r.on_datagram(second), Arrival::Reassembled(json) if json == "{}"));
}

#[test]
fn inbound_registry_starts_clients_on_first_data_only() {
    let inbound = vec![
        PortSettings { protocol: Protocol::Udp, host_port: 53, remote_host_port: 1 },
        PortSettings { protocol: Protocol::Tcp, host_port: 25565, remote_host_port: 1234 },
    ];
    let mut reg = InboundRegistry::new();
    let data = |seq: u32, port: u16| {
        ControlDatagram::client_data(
            "x",
            seq,
            ClientDataSettings { protocol: Protocol::Tcp, host_port: port, host_client_port: 40000 },
            "",
        )
    };
    assert!(matches!(reg.on_client_data(&data(0, 999), &inbound, IpVersion::Ipv4, 10), Ok(ClientDataRoute::Unmatched)));
    assert!(matches!(reg.on_client_data(&data(5, 1234), &inbound, IpVersion::Ipv4, 10), Ok(ClientDataRoute::NoClient)));
    match reg.on_client_data(&data(0, 1234), &inbound, IpVersion::Ipv6, 10) {
        Ok(ClientDataRoute::Forward { key, new_client: Some(client) }) => {
            assert_eq!(key, (1234, 40000, Protocol::Tcp));
            assert_eq!(client.port_settings(), inbound[1]);
            assert_eq!(client.remote_client_port(), 40000);
            assert_eq!(client.ip_version(), IpVersion::Ipv6);
        }
        other => panic!("unexpected {other:?}"),
    }
    assert!(matches!(
        reg.on_client_data(&data(1, 1234), &inbound, IpVersion::Ipv4, 20),
        Ok(ClientDataRoute::Forward { new_client: None, .. })
    ));
    assert!(reg.contains((1234, 40000, Protocol::Tcp)));
    // Stale after more than two hours without data.
    assert!(reg.cleanup(20 + 7200).is_empty());
    let closed = reg.cleanup(20 + 7201);
    assert_eq!(closed.len(), 1);
    let (key, close) = &closed[0];
    assert_eq!(*key, (1234, 40000, Protocol::Tcp));
    assert_eq!((close.version, close.kind.as_str()), (-1, "close"));
    assert_eq!(field(close, "hostPort"), Some("1234".to_string()));
    assert_eq!(field(close, "hostClientPort"), Some("40000".to_string()));
    assert_eq!(field(close, "protocol"), Some("tcp".to_string()));
    assert!(!reg.contains((1234, 40000, Protocol::Tcp)));
}

#[test]
fn inbound_registry_errors() {
    let mut reg = InboundRegistry::new();
    let mut d = ControlDatagram::client_data(
        "x",
        0,
        ClientDataSettings { protocol: Protocol::Tcp, host_port: 1, host_client_port: 2 },
        "",
    );
    d.content.insert("protocol".to_string(), "quic".to_string());
    assert!(matches!(reg.on_client_data(&d, &Vec::new(), IpVersion::Ipv4, 0), Err(RouteError::InvalidProtocol)));
    d.content.insert("hostClientPort".to_string(), "-2".to_string());
    assert!(matches!(reg.on_client_data(&d, &Vec::new(), IpVersion::Ipv4, 0), Err(RouteError::InvalidPort)));
}

#[test]
fn command_line_checks() {
    assert_eq!(check_arguments(&args(&["hamesh"])), ArgumentCheck::ShowHelp);
    assert_eq!(check_arguments(&args(&["hamesh", "p2p", "ipv4"])), ArgumentCheck::MissingForwarding);
    assert_eq!(check_arguments(&args(&["hamesh", "p2p", "ipv5", "--inbound", "1:2/tcp"])), ArgumentCheck::ShowHelp);
    assert_eq!(
        check_arguments(&args(&["hamesh", "p2p", "ipv6", "--inbound", "25565:1234/tcp", "--outbound", "1:2/udp"])),
        ArgumentCheck::Run
    );
}

#[test]
fn forwardings_from_the_command_line() {
    let (inbound, outbound) = get_settings(&args(&[
        "hamesh", "p2p", "ipv6", "--inbound", "25565:1234/tcp", "--outbound", "1234:25565/udp", "--inbound", "1:2/udp",
    ]))
    .unwrap();
    assert_eq!(
        inbound,
        vec![
            PortSettings { protocol: Protocol::Tcp, host_port: 25565, remote_host_port: 1234 },
            PortSettings { protocol: Protocol::Udp, host_port: 1, remote_host_port: 2 },
        ]
    );
    assert_eq!(outbound, vec![PortSettings { protocol: Protocol::Udp, host_port: 1234, remote_host_port: 25565 }]);
    // A port that does not fit a u16.
    assert!(get_settings(&args(&["hamesh", "p2p", "ipv4", "--inbound", "70000:1/tcp"])).is_none());
    let s = PortSettings { protocol: Protocol::Udp, host_port: 8, remote_host_port: 9 };
    let text = format!("--outbound {}", s.to_display_string());
    assert_eq!(parse_forwarding(&text), Some((false, s)));
}
