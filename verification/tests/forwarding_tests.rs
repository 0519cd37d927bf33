use hamesh::control_datagram::ControlDatagram;
use hamesh::delivery::{inbound_udp_step, ReceiveError, SequencedWriter, WriteStep};
use hamesh::inbound_client::InboundClient;
use hamesh::ip_version::IpVersion;
use hamesh::outbound_server::{OutboundServer, UdpClients, UdpRead, UdpWrite};
use hamesh::settings_models::{PortSettings, Protocol};
use hamesh::subscription::{poll_peers, PeerPoll, SubscriptionPeer, SubscriptionViewResponse, SubscriptionViewResponseValue};

fn field(d: &ControlDatagram, key: &str) -> Option<String> {
    d.content.get(key).cloned()
}

fn written(step: WriteStep) -> Vec<u8> {
    match step {
        WriteStep::Write(bytes) => bytes,
        other => panic!("expected a write, got {other:?}"),
    }
}

#[test]
fn inbound_client_data_ids_and_encoding() {
    let settings = PortSettings { protocol: Protocol::Tcp, host_port: 25565, remote_host_port: 1234 };
    let client = InboundClient::new(IpVersion::Ipv4, settings, 40000);
    assert_eq!(client.data_id(50000, 7), "tcp_server_25565_50000_1234_40000_7");
    let d = client.server_data_for(50000, 7, b"hello");
    assert_eq!(d.kind, "server_data");
    assert_eq!(field(&d, "id"), Some("tcp_server_25565_50000_1234_40000_7".to_string()));
    assert_eq!(field(&d, "base64"), Some("aGVsbG8=".to_string()));
    assert_eq!(field(&d, "remoteHostPort"), Some("1234".to_string()));
    assert_eq!(field(&d, "remoteHostClientPort"), Some("40000".to_string()));
    let udp = InboundClient::new(IpVersion::Ipv6, PortSettings { protocol: Protocol::Udp, ..settings }, 1);
    assert_eq!(udp.data_id(2, 3), "udp_server_25565_2_1234_1_3");
}

#[test]
fn outbound_client_data_ids_and_encoding() {
    let server = OutboundServer::new(PortSettings { protocol: Protocol::Udp, host_port: 1234, remote_host_port: 25565 });
    assert_eq!(server.data_id(1234, 40000, 0), "udp_client_1234_40000_0");
    let d = server.client_data_for(1234, 40000, 0, &[0, 255]);
    assert_eq!(d.kind, "client_data");
    assert_eq!(field(&d, "base64"), Some("AP8=".to_string()));
    assert_eq!(field(&d, "hostPort"), Some("1234".to_string()));
    assert_eq!(field(&d, "hostClientPort"), Some("40000".to_string()));
    assert_eq!(field(&d, "protocol"), Some("udp".to_string()));
}

#[test]
fn tcp_data_is_written_in_order() {
    let server = OutboundServer::new(PortSettings { protocol: Protocol::Tcp, host_port: 1, remote_host_port: 2 });
    let mut writer = SequencedWriter::new();
    let d1 = server.client_data_for(1, 9, 1, b"second");
    let d0 = server.client_data_for(1, 9, 0, b"first");
    assert!(matches!(writer.on_inbound_tcp_datagram(&d1), WriteStep::Skip));
    assert_eq!(writer.next_sequence, 0);
    assert_eq!(written(writer.on_inbound_tcp_datagram(&d0)), b"first");
    assert!(matches!(writer.on_inbound_tcp_datagram(&d0), WriteStep::Skip));
    assert_eq!(written(writer.on_inbound_tcp_datagram(&d1)), b"second");
    assert_eq!(writer.next_sequence, 2);
    let close = ControlDatagram { version: -1, kind: "close".to_string(), content: hamesh::content::Content::new() };
    assert!(matches!(writer.on_inbound_tcp_datagram(&close), WriteStep::Close));
}

#[test]
fn sequence_wraps_around() {
    let server = OutboundServer::new(PortSettings { protocol: Protocol::Tcp, host_port: 1, remote_host_port: 2 });
    let mut writer = SequencedWriter { next_sequence: u32::MAX };
    let d = server.client_data_for(1, 9, u32::MAX, b"x");
    assert_eq!(written(writer.on_inbound_tcp_datagram(&d)), b"x");
    assert_eq!(writer.next_sequence, 0);
}

#[test]
fn malformed_data_stops_the_writer() {
    let mut writer = SequencedWriter::new();
    let mut d = ControlDatagram { version: 1, kind: "client_data".to_string(), content: hamesh::content::Content::new() };
    assert!(matches!(writer.on_inbound_tcp_datagram(&d), WriteStep::Fail(ReceiveError::MissingSequence)));
    d.content.insert("sequence".to_string(), "zero".to_string());
    assert!(matches!(writer.on_inbound_tcp_datagram(&d), WriteStep::Fail(ReceiveError::InvalidSequence)));
    d.content.insert("sequence".to_string(), "0".to_string());
    d.content.insert("base64".to_string(), "!!".to_string());
    assert!(matches!(writer.on_inbound_tcp_datagram(&d), WriteStep::Fail(ReceiveError::InvalidBase64(_))));
    assert!(matches!(writer.on_outbound_tcp_datagram(1, &d), WriteStep::Fail(ReceiveError::MissingClientPort)));
    d.content.insert("remoteHostClientPort".to_string(), "x".to_string());
    assert!(matches!(writer.on_outbound_tcp_datagram(1, &d), WriteStep::Fail(ReceiveError::InvalidClientPort)));
}

#[test]
fn outbound_clients_take_only_their_data() {
    let client = InboundClient::new(
        IpVersion::Ipv4,
        PortSettings { protocol: Protocol::Tcp, host_port: 25565, remote_host_port: 1234 },
        40000,
    );
    let for_40000 = client.server_data_for(50000, 0, b"answer");
    let mut mine = SequencedWriter::new();
    let mut other = SequencedWriter::new();
    assert!(matches!(other.on_outbound_tcp_datagram(40001, &for_40000), WriteStep::Skip));
    assert_eq!(written(mine.on_outbound_tcp_datagram(40000, &for_40000)), b"answer");
}

#[test]
fn udp_inbound_data_is_written_as_it_comes() {
    let server = OutboundServer::new(PortSettings { protocol: Protocol::Udp, host_port: 1, remote_host_port: 2 });
    assert_eq!(written(inbound_udp_step(&server.client_data_for(1, 2, 5, b"late"))), b"late");
    assert_eq!(written(inbound_udp_step(&server.client_data_for(1, 2, 0, b"early"))), b"early");
}

#[test]
fn udp_clients_number_their_data() {
    let mut clients = UdpClients::new();
    assert_eq!(clients.on_read(5000, 10), UdpRead::Send(0));
    assert_eq!(clients.on_read(5000, 10), UdpRead::Send(1));
    assert_eq!(clients.on_read(6000, 3), UdpRead::Send(0));
    let client = InboundClient::new(
        IpVersion::Ipv4,
        PortSettings { protocol: Protocol::Udp, host_port: 53, remote_host_port: 1 },
        5000,
    );
    match clients.on_datagram(&client.server_data_for(1, 0, b"reply")) {
        UdpWrite::SendTo(port, bytes) => {
            assert_eq!(port, 5000);
            assert_eq!(bytes, b"reply");
        }
        other => panic!("unexpected {other:?}"),
    }
    assert_eq!(clients.on_read(5000, 0), UdpRead::Disconnected);
    assert!(matches!(clients.on_datagram(&client.server_data_for(1, 1, b"x")), UdpWrite::Skip));
    assert_eq!(clients.on_read(5000, 1), UdpRead::Send(0));
}

#[test]
fn peer_addresses() {
    let v4 = SubscriptionPeer { address: "1.2.3.4".to_string(), port: 5000 };
    assert_eq!(v4.socket_address_text(), "1.2.3.4:5000");
    let v6 = SubscriptionPeer { address: "::1".to_string(), port: 80 };
    assert_eq!(v6.socket_address_text(), "[::1]:80");
    let odd = SubscriptionPeer { address: "::1".to_string(), port: -1 };
    assert_eq!(odd.socket_address_text(), "[::1]:-1");
}

#[test]
fn peer_polls() {
    let mut response = SubscriptionViewResponse { value: SubscriptionViewResponseValue { peers: Vec::new() } };
    assert_eq!(poll_peers(&response), PeerPoll::Expired);
    response.value.peers.push(SubscriptionPeer { address: "1.1.1.1".to_string(), port: 1 });
    assert_eq!(poll_peers(&response), PeerPoll::Wait);
    response.value.peers.push(SubscriptionPeer { address: "2.2.2.2".to_string(), port: 2 });
    assert_eq!(poll_peers(&response), PeerPoll::Connect);
}
