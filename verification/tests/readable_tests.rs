use hamesh::content::Content;
use hamesh::control_datagram::ControlDatagram;
use hamesh::delivery::{inbound_udp_accepts, SequencedWriter};
use hamesh::handshake::Handshake;
use hamesh::ip_version::IpVersion;
use hamesh::outbound_server::UdpClients;
use hamesh::port_exchange::PortExchange;
use hamesh::settings_models::{ClientDataSettings, PortSettings, Protocol};
use hamesh::subscription::{joined_peers, SubscriptionPeer, SubscriptionViewResponse, SubscriptionViewResponseValue};
use hamesh::tunnel::{outbound_key_accepts, remote_inbound_accepts, route_accepts, ClientDataRoute, InboundRegistry};

fn datagram(kind: &str, fields: &[(&str, &str)]) -> ControlDatagram {
    let mut content = Content::new();
    for (key, value) in fields {
        content.insert(key.to_string(), value.to_string());
    }
    ControlDatagram { version: 1, kind: kind.to_string(), content }
}

#[test]
fn acknowledgements_need_an_id() {
    let bare_ack = datagram("ACK", &[]);
    let ack = datagram("ACK", &[("id", "SYN")]);
    assert!(!Handshake::accepts(&bare_ack));
    assert!(Handshake::accepts(&ack));
    assert!(Handshake::accepts(&ControlDatagram::syn()));
    assert!(!route_accepts(&bare_ack));
    assert!(route_accepts(&ack));
    let announcing = PortExchange::new(
        vec![PortSettings { protocol: Protocol::Tcp, host_port: 1, remote_host_port: 2 }],
        Vec::new(),
    );
    assert!(!announcing.accepts(&bare_ack));
    assert!(announcing.accepts(&ControlDatagram::heart_beat()));
    // With nothing left to announce, an acknowledgement's id is not read.
    let done = PortExchange::new(Vec::new(), Vec::new());
    assert!(done.accepts(&bare_ack));
}

#[test]
fn only_version_one_is_received() {
    let mut old = ControlDatagram::syn();
    old.version = 2;
    assert!(!Handshake::accepts(&old));
    assert!(!PortExchange::new(Vec::new(), Vec::new()).accepts(&old));
    assert!(!hamesh::tunnel::TunnelReceiver::new().accepts(&old));
    assert!(hamesh::tunnel::TunnelReceiver::new().accepts(&ControlDatagram::syn()));
}

#[test]
fn announcements_need_their_fields() {
    let settings = PortSettings { protocol: Protocol::Tcp, host_port: 1, remote_host_port: 2 };
    let good = ControlDatagram::input_port("input_port_1:2/tcp", &settings);
    assert!(remote_inbound_accepts(&good));
    assert!(route_accepts(&good));
    assert!(PortExchange::new(Vec::new(), Vec::new()).accepts(&good));
    let missing = datagram("input_port", &[("protocol", "tcp"), ("hostPort", "1")]);
    assert!(!remote_inbound_accepts(&missing));
    assert!(!route_accepts(&missing));
    let bad_port = datagram("input_port", &[("protocol", "tcp"), ("hostPort", "x"), ("remoteHostPort", "2")]);
    assert!(!remote_inbound_accepts(&bad_port));
    // An unknown protocol is reported as an error, whatever the ports hold.
    let bad_protocol = datagram("input_port", &[("protocol", "sctp"), ("hostPort", "x"), ("remoteHostPort", "2")]);
    assert!(remote_inbound_accepts(&bad_protocol));
}

#[test]
fn server_data_needs_its_port_and_protocol() {
    assert!(!outbound_key_accepts(&datagram("server_data", &[])));
    assert!(outbound_key_accepts(&datagram("server_data", &[("remoteHostPort", "x")])));
    assert!(!outbound_key_accepts(&datagram("server_data", &[("remoteHostPort", "80")])));
    assert!(outbound_key_accepts(&datagram("server_data", &[("remoteHostPort", "80"), ("protocol", "tcp")])));
}

#[test]
fn client_data_needs_a_sequence_only_to_start_a_connection() {
    let inbound = vec![PortSettings { protocol: Protocol::Tcp, host_port: 25565, remote_host_port: 1234 }];
    let mut registry = InboundRegistry::new();
    let fields = [("hostPort", "1234"), ("hostClientPort", "40000"), ("protocol", "tcp")];
    let without_sequence = datagram("client_data", &fields);
    assert!(!registry.accepts_client_data(&without_sequence, &inbound));
    assert!(registry.accepts_client_data(&without_sequence, &Vec::new()));
    assert!(!registry.accepts_client_data(&datagram("client_data", &[]), &inbound));
    assert!(registry.accepts_client_data(&datagram("client_data", &[("hostPort", "x")]), &inbound));
    let first = ControlDatagram::client_data(
        "x",
        0,
        ClientDataSettings { protocol: Protocol::Tcp, host_port: 1234, host_client_port: 40000 },
        "",
    );
    assert!(registry.accepts_client_data(&first, &inbound));
    assert!(matches!(
        registry.on_client_data(&first, &inbound, IpVersion::Ipv4, 0),
        Ok(ClientDataRoute::Forward { new_client: Some(_), .. })
    ));
    assert!(registry.accepts_client_data(&without_sequence, &inbound));
}

#[test]
fn writers_need_the_data_they_write() {
    let writer = SequencedWriter::new();
    assert!(!writer.accepts_inbound(&datagram("client_data", &[("sequence", "0")])));
    assert!(writer.accepts_inbound(&datagram("client_data", &[("sequence", "1")])));
    assert!(writer.accepts_inbound(&datagram("close", &[])));
    assert!(!writer.accepts_outbound(7, &datagram("server_data", &[("remoteHostClientPort", "7"), ("sequence", "0")])));
    assert!(writer.accepts_outbound(8, &datagram("server_data", &[("remoteHostClientPort", "7"), ("sequence", "0")])));
    assert!(!inbound_udp_accepts(&datagram("client_data", &[])));
    assert!(inbound_udp_accepts(&datagram("close", &[])));
    let mut clients = UdpClients::new();
    let reply = datagram("server_data", &[("remoteHostClientPort", "5000")]);
    assert!(clients.accepts(&reply));
    clients.on_read(5000, 1);
    assert!(!clients.accepts(&reply));
}

#[test]
fn joining_peer_connects_from_the_second_to_the_first() {
    let mut response = SubscriptionViewResponse { value: SubscriptionViewResponseValue { peers: Vec::new() } };
    response.value.peers.push(SubscriptionPeer { address: "1.1.1.1".to_string(), port: 1 });
    assert!(joined_peers(&response).is_none());
    response.value.peers.push(SubscriptionPeer { address: "2.2.2.2".to_string(), port: 2 });
    let (source, dest) = joined_peers(&response).unwrap();
    assert_eq!((source.address.as_str(), source.port), ("2.2.2.2", 2));
    assert_eq!((dest.address.as_str(), dest.port), ("1.1.1.1", 1));
}

#[test]
fn unreadable_arrivals_restart_the_idle_count() {
    let mut x = PortExchange::new(Vec::new(), vec![PortSettings { protocol: Protocol::Udp, host_port: 1, remote_host_port: 2 }]);
    for _ in 0..9 {
        x.on_idle();
    }
    x.on_unreadable();
    x.on_idle();
    assert!(!x.receiver_done());
}
