//! Forwarding with acknowledgements and retries. The receiving end of a TCP forwarding
//! acknowledges every data datagram that is not ahead of the one it expects and writes the
//! data in order; the sending end repeats each datagram until it is acknowledged or the
//! forwarding closes; a local reader stops at the second empty read in a row.
use vstd::prelude::*;
use vstd::string::*;
use crate::base64_codec::{base64_decode, base64_decoding};
use crate::content::str_equal;
use crate::control_datagram::{ack_content, client_data_content, has_shape, lemma_server_data_fields,
    server_data_content, ControlDatagram};
use crate::inbound_client::{id_prefix, push_field, push_id_prefix};
use crate::settings_models::{spec_parse_protocol, ClientDataSettings, Protocol, ServerDataSettings};
use crate::text::{decimal, lemma_decimal_parses, parse_u16, parse_u64, spec_parse_u16, spec_parse_u64};

verus! {

/// How many times a datagram is sent at most while its acknowledgement is awaited, where the
/// retries are bounded.
pub const RETRY_LIMIT: u32 = 500;

/// What the writer of a forwarding does with a datagram from the peer.
#[derive(Debug)]
pub enum AckedStep {
    /// An acknowledgement: hand it to the senders that await one.
    Acknowledgement,
    /// Nothing to do.
    Ignore,
    /// The forwarding is closed: stop writing.
    Close,
    /// Write these bytes to the local connection.
    Write(Vec<u8>),
    /// The data is not valid base64 (the decoder's message): report it and go on.
    Undecodable(String),
    /// The sequence number is missing or not a number: report it and go on.
    InvalidSequence,
    /// The protocol field names no protocol: report it and go on.
    InvalidProtocol,
    /// A field that the writer needs is missing or unreadable: the writer stops.
    Malformed,
}

/// The outcome of a step, over plain values.
pub enum Acked {
    Acknowledgement,
    Ignore,
    Close,
    Write(Seq<u8>),
    Undecodable,
    InvalidSequence,
    InvalidProtocol,
    Malformed,
}

/// The outcome that a step stands for.
pub open spec fn acked_view(s: AckedStep) -> Acked {
    match s {
        AckedStep::Acknowledgement => Acked::Acknowledgement,
        AckedStep::Ignore => Acked::Ignore,
        AckedStep::Close => Acked::Close,
        AckedStep::Write(b) => Acked::Write(b@),
        AckedStep::Undecodable(_) => Acked::Undecodable,
        AckedStep::InvalidSequence => Acked::InvalidSequence,
        AckedStep::InvalidProtocol => Acked::InvalidProtocol,
        AckedStep::Malformed => Acked::Malformed,
    }
}

/// The data that `d` carries, its `base64` field decoded, or the end of the forwarding:
/// empty data under the id `close` ends it.
pub open spec fn data_or_close(d: ControlDatagram) -> Acked {
    if !d.content@.contains_key("base64"@) {
        Acked::Malformed
    } else {
        match base64_decoding(d.content@["base64"@]) {
            None => Acked::Undecodable,
            Some(b) => if b.len() == 0 {
                if !d.content@.contains_key("id"@) {
                    Acked::Malformed
                } else if d.content@["id"@] == "close"@ {
                    Acked::Close
                } else {
                    Acked::Write(b)
                }
            } else {
                Acked::Write(b)
            },
        }
    }
}

fn data_or_close_step(d: &ControlDatagram) -> (res: AckedStep)
    ensures
        acked_view(res) == data_or_close(*d),
{
    let text = match d.content.get("base64") {
        None => {
            return AckedStep::Malformed;
        },
        Some(t) => t,
    };
    match base64_decode(text.as_str()) {
        Err(message) => AckedStep::Undecodable(message),
        Ok(bytes) => {
            if bytes.len() == 0 {
                match d.content.get("id") {
                    None => AckedStep::Malformed,
                    Some(id) => if str_equal(id.as_str(), "close") {
                        AckedStep::Close
                    } else {
                        AckedStep::Write(bytes)
                    },
                }
            } else {
                AckedStep::Write(bytes)
            }
        },
    }
}

/// Whether a datagram from the peer concerns the local clients of an outbound forwarding:
/// their data and the acknowledgements of what they sent.
pub fn for_local_clients(d: &ControlDatagram) -> (res: bool)
    ensures
        res == (d.kind@ == "server_data"@ || d.kind@ == "ACK"@),
{
    str_equal(d.kind.as_str(), "server_data") || str_equal(d.kind.as_str(), "ACK")
}

/// What the writer of the local client on port `host_client_port`, of the outbound TCP
/// forwarding on port `host_port`, does with a datagram from the peer: acknowledgements go to
/// the senders, and `server_data` meant for this client is written.
pub open spec fn local_client_delivery(host_port: u16, host_client_port: u16, d: ControlDatagram) -> Acked {
    if d.kind@ == "server_data"@ {
        if !(d.content@.contains_key("protocol"@) && d.content@.contains_key("remoteHostPort"@)
            && d.content@.contains_key("remoteHostClientPort"@)) {
            Acked::Malformed
        } else {
            match spec_parse_protocol(d.content@["protocol"@]) {
                None => Acked::InvalidProtocol,
                Some(protocol) => match (
                    spec_parse_u16(d.content@["remoteHostPort"@]),
                    spec_parse_u16(d.content@["remoteHostClientPort"@]),
                ) {
                    (Some(port), Some(client_port)) => if protocol == Protocol::Tcp && port
                        == host_port && client_port == host_client_port {
                        data_or_close(d)
                    } else {
                        Acked::Ignore
                    },
                    _ => Acked::Malformed,
                },
            }
        }
    } else if d.kind@ == "ACK"@ {
        Acked::Acknowledgement
    } else {
        Acked::Ignore
    }
}

/// The step of the writer of the local client on port `host_client_port` of the outbound TCP
/// forwarding on port `host_port`.
pub fn local_client_step(host_port: u16, host_client_port: u16, d: &ControlDatagram) -> (res:
    AckedStep)
    ensures
        acked_view(res) == local_client_delivery(host_port, host_client_port, *d),
{
    if str_equal(d.kind.as_str(), "server_data") {
        let protocol_text = d.content.get("protocol");
        let port_text = d.content.get("remoteHostPort");
        let client_port_text = d.content.get("remoteHostClientPort");
        if protocol_text.is_none() || port_text.is_none() || client_port_text.is_none() {
            return AckedStep::Malformed;
        }
        let protocol = match Protocol::parse(protocol_text.unwrap().as_str()) {
            None => {
                return AckedStep::InvalidProtocol;
            },
            Some(p) => p,
        };
        let port = parse_u16(port_text.unwrap().as_str());
        let client_port = parse_u16(client_port_text.unwrap().as_str());
        match (port, client_port) {
            (Some(port), Some(client_port)) => {
                let tcp = match protocol {
                    Protocol::Tcp => true,
                    Protocol::Udp => false,
                };
                if tcp && port == host_port && client_port == host_client_port {
                    data_or_close_step(d)
                } else {
                    AckedStep::Ignore
                }
            },
            _ => AckedStep::Malformed,
        }
    } else if str_equal(d.kind.as_str(), "ACK") {
        AckedStep::Acknowledgement
    } else {
        AckedStep::Ignore
    }
}

/// The sequence number of a data datagram; `None` when its `sequence` field is missing or is
/// not a number.
pub open spec fn sequence_of(d: ControlDatagram) -> Option<u64> {
    if d.content@.contains_key("sequence"@) {
        spec_parse_u64(d.content@["sequence"@])
    } else {
        None
    }
}

/// The number after `n`, wrapping around.
pub open spec fn wrapping_next(n: u64) -> u64 {
    if n == u64::MAX {
        0
    } else {
        (n + 1) as u64
    }
}

/// `d` is the close signal: empty data under the id `close`.
pub open spec fn is_close_signal(d: ControlDatagram) -> bool {
    &&& d.content@.contains_key("base64"@)
    &&& base64_decoding(d.content@["base64"@]) == Some(Seq::<u8>::empty())
    &&& d.content@.contains_key("id"@)
    &&& d.content@["id"@] == "close"@
}

/// Whether `d` is the close signal.
fn close_signal(d: &ControlDatagram) -> (res: bool)
    ensures
        res == is_close_signal(*d),
{
    let text = match d.content.get("base64") {
        None => {
            return false;
        },
        Some(t) => t,
    };
    let empty = match base64_decode(text.as_str()) {
        Err(_) => false,
        Ok(bytes) => {
            assert(bytes.len() == 0 ==> bytes@ =~= Seq::<u8>::empty());
            bytes.len() == 0
        },
    };
    if !empty {
        return false;
    }
    match d.content.get("id") {
        None => false,
        Some(id) => str_equal(id.as_str(), "close"),
    }
}

/// The writer of the local connection of an inbound TCP forwarding, expecting data number
/// `next`, given `d`: whether it acknowledges `d`, what it does with it, and the number it
/// expects afterwards. The close signal ends the writer whatever its number; other data
/// ahead of the expected number is dropped unacknowledged; data already written is
/// acknowledged again and not written.
pub open spec fn acked_transition(next: u64, d: ControlDatagram) -> (bool, Acked, u64) {
    if d.kind@ == "client_data"@ {
        if is_close_signal(d) {
            (true, Acked::Close, next)
        } else {
            match sequence_of(d) {
            None => (false, Acked::InvalidSequence, next),
            Some(s) => if s > next {
                (false, Acked::Ignore, next)
            } else if s < next {
                (d.content@.contains_key("id"@), Acked::Ignore, next)
            } else {
                (d.content@.contains_key("id"@), data_or_close(d), wrapping_next(next))
            },
            }
        }
    } else if d.kind@ == "ACK"@ {
        (false, Acked::Acknowledgement, next)
    } else {
        (false, Acked::Ignore, next)
    }
}

/// The writer of the local connection of an inbound TCP forwarding, with the number of the
/// data it expects next.
#[derive(Debug, Clone, Copy, PartialEq, Eq)]
pub struct AckedWriter {
    pub next_sequence: u64,
}

impl AckedWriter {
    /// A writer that expects data number 0.
    pub fn new() -> (res: AckedWriter)
        ensures
            res.next_sequence == 0,
    {
        AckedWriter { next_sequence: 0 }
    }

    /// Takes a datagram from the peer: the acknowledgement to send back, if any, and the step.
    pub fn on_tcp_datagram(&mut self, d: &ControlDatagram) -> (res: (Option<ControlDatagram>, AckedStep))
        ensures
            acked_transition(old(self).next_sequence, *d) == (
                res.0 is Some,
                acked_view(res.1),
                final(self).next_sequence,
            ),
            match res.0 {
                Some(a) => has_shape(a, 1, "ACK"@, ack_content(*d)),
                None => true,
            },
    {
        if str_equal(d.kind.as_str(), "client_data") {
            if close_signal(d) {
                return (Some(ControlDatagram::ack(d)), AckedStep::Close);
            }
            let s = match d.content.get("sequence") {
                None => {
                    return (None, AckedStep::InvalidSequence);
                },
                Some(text) => match parse_u64(text.as_str()) {
                    None => {
                        return (None, AckedStep::InvalidSequence);
                    },
                    Some(s) => s,
                },
            };
            if s > self.next_sequence {
                return (None, AckedStep::Ignore);
            }
            let ack = if d.content.contains_key("id") {
                Some(ControlDatagram::ack(d))
            } else {
                None
            };
            if s < self.next_sequence {
                (ack, AckedStep::Ignore)
            } else {
                self.next_sequence = self.next_sequence.wrapping_add(1);
                (ack, data_or_close_step(d))
            }
        } else if str_equal(d.kind.as_str(), "ACK") {
            (None, AckedStep::Acknowledgement)
        } else {
            (None, AckedStep::Ignore)
        }
    }
}

/// What the writer of the local connection of an inbound UDP forwarding does with a datagram
/// from the peer: `client_data` is written as it comes.
pub open spec fn acked_udp_delivery(d: ControlDatagram) -> Acked {
    if d.kind@ == "client_data"@ {
        data_or_close(d)
    } else {
        Acked::Ignore
    }
}

/// The step of the writer of the local connection of an inbound UDP forwarding.
pub fn udp_writer_step(d: &ControlDatagram) -> (res: AckedStep)
    ensures
        acked_view(res) == acked_udp_delivery(*d),
{
    if str_equal(d.kind.as_str(), "client_data") {
        data_or_close_step(d)
    } else {
        AckedStep::Ignore
    }
}

/// Whether `ack`, handed to the sender that awaits the acknowledgement of `id`, is that
/// acknowledgement.
pub fn acknowledges(ack: &ControlDatagram, id: &str) -> (res: bool)
    requires
        ack.kind@ == "ACK"@ ==> ack.content@.contains_key("id"@),
    ensures
        res == (ack.kind@ == "ACK"@ && ack.content@["id"@] == id@),
{
    if str_equal(ack.kind.as_str(), "ACK") {
        str_equal(ack.content.get("id").unwrap().as_str(), id)
    } else {
        false
    }
}

/// Whether a sender that has sent a datagram `sent` times sends it again: not once it is
/// acknowledged or the forwarding is closed, nor after `limit` sends where there is one.
pub fn sends_again(sent: u32, limit: Option<u32>, acknowledged: bool, closed: bool) -> (res: bool)
    ensures
        res == (!acknowledged && !closed && match limit {
            Some(l) => sent < l,
            None => true,
        }),
{
    if acknowledged || closed {
        return false;
    }
    match limit {
        Some(l) => sent < l,
        None => true,
    }
}

/// What a local reader does after a read.
#[derive(Debug, Clone, Copy, PartialEq, Eq)]
pub enum ReadStep {
    /// An empty read after data: read again.
    Again,
    /// A second empty read in a row: the local connection is done.
    Stop,
    /// Send what was read as data number `n`.
    Send(u64),
}

/// A local reader: whether its last read was empty, and the number of the data it sends next.
#[derive(Debug, Clone, Copy, PartialEq, Eq)]
pub struct LocalReader {
    pub empty_before: bool,
    pub next_sequence: u64,
}

impl LocalReader {
    /// A reader that has read nothing yet.
    pub fn new() -> (res: LocalReader)
        ensures
            !res.empty_before,
            res.next_sequence == 0,
    {
        LocalReader { empty_before: false, next_sequence: 0 }
    }

    /// Takes a read of `size` bytes.
    pub fn on_read(&mut self, size: usize) -> (res: ReadStep)
        ensures
            size == 0 ==> res == (if old(self).empty_before {
                ReadStep::Stop
            } else {
                ReadStep::Again
            }) && final(self).empty_before && final(self).next_sequence == old(self).next_sequence,
            size > 0 ==> res == ReadStep::Send(old(self).next_sequence) && !final(self).empty_before
                && final(self).next_sequence == wrapping_next(old(self).next_sequence),
    {
        if size == 0 {
            if self.empty_before {
                ReadStep::Stop
            } else {
                self.empty_before = true;
                ReadStep::Again
            }
        } else {
            self.empty_before = false;
            let n = self.next_sequence;
            self.next_sequence = self.next_sequence.wrapping_add(1);
            ReadStep::Send(n)
        }
    }
}

/// The id of data number `sequence` read by a local reader:
/// `{tcp|udp}_{role}_{port}_{client_port}_{sequence}`.
pub open spec fn reader_data_id(
    protocol: Protocol,
    role: Seq<char>,
    port: u16,
    client_port: u16,
    sequence: u64,
) -> Seq<char> {
    id_prefix(protocol, role) + decimal(port as nat) + "_"@ + decimal(client_port as nat) + "_"@
        + decimal(sequence as nat)
}

/// The id of data number `sequence` read by a local reader.
pub fn reader_data_id_text(protocol: Protocol, role: &str, port: u16, client_port: u16, sequence: u64) -> (res:
    String)
    ensures
        res@ == reader_data_id(protocol, role@, port, client_port, sequence),
{
    let mut s = String::new();
    push_id_prefix(&mut s, protocol, role);
    crate::text::push_decimal(&mut s, port as u64);
    push_field(&mut s, client_port as u64);
    push_field(&mut s, sequence);
    s
}

/// The writer of the local connection of an inbound TCP forwarding ends on the close signal,
/// whatever its number; it acknowledges every other `client_data` datagram that is not ahead
/// of the data it expects, writes the data only of the one it expects and then expects the
/// next, and drops unacknowledged what is ahead.
pub proof fn law_acknowledged_in_order(
    d: ControlDatagram,
    id: Seq<char>,
    n: u32,
    settings: ClientDataSettings,
    text: Seq<char>,
    next: u64,
)
    requires
        has_shape(d, 1, "client_data"@, client_data_content(id, n, settings, text)),
    ensures
        acked_transition(next, d) == if base64_decoding(text) == Some(Seq::<u8>::empty()) && id
            == "close"@ {
            (true, Acked::Close, next)
        } else if n > next {
            (false, Acked::Ignore, next)
        } else if n < next {
            (true, Acked::Ignore, next)
        } else {
            (true, data_or_close(d), wrapping_next(next))
        },
        data_or_close(d) == match base64_decoding(text) {
            None => Acked::Undecodable,
            Some(b) => if b.len() == 0 && id == "close"@ {
                Acked::Close
            } else {
                Acked::Write(b)
            },
        },
{
    reveal_strlit("id");
    reveal_strlit("sequence");
    reveal_strlit("protocol");
    reveal_strlit("hostPort");
    reveal_strlit("hostClientPort");
    reveal_strlit("base64");
    reveal_strlit("client_data");
    reveal_strlit("ACK");
    assert("client_data"@[0] != "ACK"@[0]);
    assert("sequence"@[0] != "protocol"@[0]);
    assert("sequence"@[0] != "hostPort"@[0]);
    assert("sequence"@[0] != "hostClientPort"@[0]);
    assert("sequence"@[0] != "base64"@[0]);
    assert("base64"@[0] != "protocol"@[0]);
    assert("base64"@[0] != "hostPort"@[0]);
    assert("base64"@[0] != "hostClientPort"@[0]);
    assert("base64"@[0] != "id"@[0]);
    assert("sequence"@[0] != "id"@[0]);
    lemma_decimal_parses(n as nat);
}

/// A datagram written once and received again, as a retransmission, is acknowledged again
/// and not written a second time.
pub proof fn law_retransmission_not_rewritten(next: u64, d: ControlDatagram)
    requires
        d.kind@ == "client_data"@,
        d.content@.contains_key("id"@),
        !is_close_signal(d),
        sequence_of(d) == Some(next),
        next < u64::MAX,
    ensures
        acked_transition(next, d) == (true, data_or_close(d), (next + 1) as u64),
        acked_transition((next + 1) as u64, d) == (true, Acked::Ignore, (next + 1) as u64),
{
}

/// The writer of a local client of an outbound TCP forwarding writes every answer meant for
/// that client, whatever its number: a `server_data` datagram made for TCP and for this
/// client's ports is written as the bytes its data decodes to (empty data under the id
/// `close` ends the writer); one made for another client or protocol is ignored.
pub proof fn law_local_client_writes_its_answers(
    d: ControlDatagram,
    id: Seq<char>,
    n: u32,
    settings: ServerDataSettings,
    text: Seq<char>,
    host_port: u16,
    host_client_port: u16,
)
    requires
        has_shape(d, 1, "server_data"@, server_data_content(id, n, settings, text)),
    ensures
        local_client_delivery(host_port, host_client_port, d) == if settings.protocol
            == Protocol::Tcp && settings.remote_host_port == host_port
            && settings.remote_host_client_port == host_client_port {
            match base64_decoding(text) {
                None => Acked::Undecodable,
                Some(b) => if b.len() == 0 && id == "close"@ {
                    Acked::Close
                } else {
                    Acked::Write(b)
                },
            }
        } else {
            Acked::Ignore
        },
{
    lemma_server_data_fields(id, n, settings, text);
}

} // verus!
