use hamesh::acknowledged::{
    acknowledges, for_local_clients, local_client_step, reader_data_id_text, sends_again,
    udp_writer_step, AckedStep, AckedWriter, LocalReader, ReadStep, RETRY_LIMIT,
};
use hamesh::content::Content;
use hamesh::control_datagram::ControlDatagram;
use hamesh::settings_models::{ClientDataSettings, Protocol, ServerDataSettings};

fn tcp_client_settings() -> ClientDataSettings {
    ClientDataSettings { protocol: Protocol::Tcp, host_port: 8080, host_client_port: 50000 }
}

fn client_data(id: &str, sequence: u32, bytes: &[u8]) -> ControlDatagram {
    #[allow(deprecated)]
    let text = base64::encode(bytes);
    ControlDatagram::client_data(id, sequence, tcp_client_settings(), &text)
}

fn server_data(protocol: Protocol, port: u16, client_port: u16, id: &str, bytes: &[u8]) -> ControlDatagram {
    #[allow(deprecated)]
    let text = base64::encode(bytes);
    ControlDatagram::server_data(
        id,
        0,
        ServerDataSettings { protocol, remote_host_port: port, remote_host_client_port: client_port },
        &text,
    )
}

fn datagram(kind: &str, fields: &[(&str, &str)]) -> ControlDatagram {
    let mut content = Content::new();
    for (key, value) in fields {
        content.insert(key.to_string(), value.to_string());
    }
    ControlDatagram { version: 1, kind: kind.to_string(), content }
}

fn written(step: AckedStep) -> Vec<u8> {
    match step {
        AckedStep::Write(bytes) => bytes,
        other => panic!("expected a write, got {other:?}"),
    }
}

fn ack_id(ack: Option<ControlDatagram>) -> String {
    let ack = ack.expect("an acknowledgement");
    assert_eq!(ack.kind, "ACK");
    assert_eq!(ack.version, 1);
    ack.content.get("id").unwrap().clone()
}

#[test]
fn acked_writer_writes_in_order_and_acknowledges() {
    let mut writer = AckedWriter::new();
    let d0 = client_data("a0", 0, b"first");
    let d1 = client_data("a1", 1, b"second");
    // Ahead of the expected data: dropped, not acknowledged.
    let (ack, step) = writer.on_tcp_datagram(&d1);
    assert!(ack.is_none());
    assert!(matches!(step, AckedStep::Ignore));
    assert_eq!(writer.next_sequence, 0);
    // The expected data: acknowledged and written.
    let (ack, step) = writer.on_tcp_datagram(&d0);
    assert_eq!(ack_id(ack), "a0");
    assert_eq!(written(step), b"first");
    assert_eq!(writer.next_sequence, 1);
    // A retransmission: acknowledged again, not written again.
    let (ack, step) = writer.on_tcp_datagram(&d0);
    assert_eq!(ack_id(ack), "a0");
    assert!(matches!(step, AckedStep::Ignore));
    assert_eq!(writer.next_sequence, 1);
    let (ack, step) = writer.on_tcp_datagram(&d1);
    assert_eq!(ack_id(ack), "a1");
    assert_eq!(written(step), b"second");
    assert_eq!(writer.next_sequence, 2);
}

#[test]
fn acked_writer_closes_on_empty_close_data() {
    let mut writer = AckedWriter::new();
    let close = client_data("close", 0, b"");
    let (ack, step) = writer.on_tcp_datagram(&close);
    assert_eq!(ack_id(ack), "close");
    assert!(matches!(step, AckedStep::Close));
    // Empty data under another id is an empty write.
    let mut writer = AckedWriter::new();
    let (_, step) = writer.on_tcp_datagram(&client_data("x", 0, b""));
    assert_eq!(written(step), Vec::<u8>::new());
}

#[test]
fn acked_writer_reports_bad_fields() {
    let mut writer = AckedWriter::new();
    let (ack, step) = writer.on_tcp_datagram(&datagram("client_data", &[("id", "x")]));
    assert!(ack.is_none());
    assert!(matches!(step, AckedStep::InvalidSequence));
    let (ack, step) = writer.on_tcp_datagram(&datagram("client_data", &[("sequence", "-1")]));
    assert!(ack.is_none());
    assert!(matches!(step, AckedStep::InvalidSequence));
    let (ack, step) =
        writer.on_tcp_datagram(&datagram("client_data", &[("sequence", "0"), ("id", "x"), ("base64", "%%")]));
    assert_eq!(ack_id(ack), "x");
    assert!(matches!(step, AckedStep::Undecodable(_)));
    assert_eq!(writer.next_sequence, 1);
    // No id: no acknowledgement; no data: the writer stops.
    let (ack, step) = writer.on_tcp_datagram(&datagram("client_data", &[("sequence", "1")]));
    assert!(ack.is_none());
    assert!(matches!(step, AckedStep::Malformed));
    let (ack, step) = writer.on_tcp_datagram(&ControlDatagram::ack(&client_data("z", 0, b"")));
    assert!(ack.is_none());
    assert!(matches!(step, AckedStep::Acknowledgement));
    let (ack, step) = writer.on_tcp_datagram(&ControlDatagram::syn());
    assert!(ack.is_none());
    assert!(matches!(step, AckedStep::Ignore));
}

#[test]
fn local_client_writer_takes_its_own_data() {
    let mine = server_data(Protocol::Tcp, 8080, 50000, "s0", b"answer");
    assert_eq!(written(local_client_step(8080, 50000, &mine)), b"answer");
    let other_client = server_data(Protocol::Tcp, 8080, 50001, "s0", b"answer");
    assert!(matches!(local_client_step(8080, 50000, &other_client), AckedStep::Ignore));
    let udp = server_data(Protocol::Udp, 8080, 50000, "s0", b"answer");
    assert!(matches!(local_client_step(8080, 50000, &udp), AckedStep::Ignore));
    let close = server_data(Protocol::Tcp, 8080, 50000, "close", b"");
    assert!(matches!(local_client_step(8080, 50000, &close), AckedStep::Close));
    let ack = ControlDatagram::ack(&mine);
    assert!(matches!(local_client_step(8080, 50000, &ack), AckedStep::Acknowledgement));
    assert!(matches!(local_client_step(8080, 50000, &ControlDatagram::heart_beat()), AckedStep::Ignore));
}

#[test]
fn local_client_writer_reports_bad_fields() {
    let fields = [("protocol", "sctp"), ("remoteHostPort", "8080"), ("remoteHostClientPort", "1")];
    assert!(matches!(local_client_step(8080, 1, &datagram("server_data", &fields)), AckedStep::InvalidProtocol));
    let fields = [("protocol", "tcp"), ("remoteHostPort", "80800"), ("remoteHostClientPort", "1")];
    assert!(matches!(local_client_step(8080, 1, &datagram("server_data", &fields)), AckedStep::Malformed));
    let fields = [("protocol", "tcp"), ("remoteHostPort", "8080")];
    assert!(matches!(local_client_step(8080, 1, &datagram("server_data", &fields)), AckedStep::Malformed));
    let fields = [("protocol", "tcp"), ("remoteHostPort", "8080"), ("remoteHostClientPort", "1"), ("base64", "!")];
    assert!(matches!(local_client_step(8080, 1, &datagram("server_data", &fields)), AckedStep::Undecodable(_)));
}

#[test]
fn udp_writer_takes_client_data_as_it_comes() {
    assert_eq!(written(udp_writer_step(&client_data("u5", 5, b"late"))), b"late");
    assert!(matches!(udp_writer_step(&client_data("close", 0, b"")), AckedStep::Close));
    assert!(matches!(udp_writer_step(&ControlDatagram::syn()), AckedStep::Ignore));
}

#[test]
fn acknowledgements_and_retries() {
    let d = client_data("tcp_client_8080_50000_3", 3, b"x");
    let ack = ControlDatagram::ack(&d);
    assert!(acknowledges(&ack, "tcp_client_8080_50000_3"));
    assert!(!acknowledges(&ack, "tcp_client_8080_50000_4"));
    assert!(!acknowledges(&d, "tcp_client_8080_50000_3"));
    assert!(for_local_clients(&ack));
    assert!(for_local_clients(&server_data(Protocol::Tcp, 1, 2, "i", b"")));
    assert!(!for_local_clients(&d));
    assert_eq!(RETRY_LIMIT, 500);
    assert!(sends_again(1, Some(RETRY_LIMIT), false, false));
    assert!(sends_again(499, Some(RETRY_LIMIT), false, false));
    assert!(!sends_again(500, Some(RETRY_LIMIT), false, false));
    assert!(sends_again(100_000, None, false, false));
    assert!(!sends_again(1, None, true, false));
    assert!(!sends_again(1, None, false, true));
}

#[test]
fn local_reader_stops_at_the_second_empty_read() {
    let mut reader = LocalReader::new();
    assert_eq!(reader.on_read(10), ReadStep::Send(0));
    assert_eq!(reader.on_read(0), ReadStep::Again);
    assert_eq!(reader.on_read(3), ReadStep::Send(1));
    assert_eq!(reader.on_read(0), ReadStep::Again);
    assert_eq!(reader.on_read(0), ReadStep::Stop);
    assert_eq!(reader.next_sequence, 2);
    assert_eq!(reader_data_id_text(Protocol::Tcp, "client", 8080, 50000, 2), "tcp_client_8080_50000_2");
    assert_eq!(reader_data_id_text(Protocol::Udp, "server", 1, 2, u64::MAX), "udp_server_1_2_18446744073709551615");
}

#[test]
fn acked_writer_closes_on_the_close_signal_after_data() {
    let mut writer = AckedWriter::new();
    let (_, step) = writer.on_tcp_datagram(&client_data("a0", 0, b"first"));
    assert_eq!(written(step), b"first");
    // The reader's close signal carries number 0, behind the expected number.
    let (ack, step) = writer.on_tcp_datagram(&client_data("close", 0, b""));
    assert_eq!(ack_id(ack), "close");
    assert!(matches!(step, AckedStep::Close));
    assert_eq!(writer.next_sequence, 1);
}
