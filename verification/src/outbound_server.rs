//! The local end of an outbound forwarding: a local server whose clients' data goes to the
//! peer, and whose clients receive the peer's answers.
use vstd::prelude::*;
use vstd::string::*;
use crate::base64_codec::{base64_decode, base64_decoding, base64_encode, base64_encoding};
use std::collections::HashMap;
use crate::control_datagram::{client_data_content, has_shape, server_data_content, ControlDatagram};
use crate::delivery::{outbound_tcp_delivery, sequenced_readable, Delivery, ReceiveError, next_after};
use crate::inbound_client::{id_prefix, push_field, push_id_prefix};
use crate::settings_models::{ClientDataSettings, PortSettings, Protocol, ServerDataSettings};
use crate::text::{decimal, lemma_decimal_parses, parse_u16, push_decimal, spec_parse_u16};

verus! {

/// The id of data that an outbound forwarding read from its local client:
/// `{tcp|udp}_client_{host_port}_{host_client_port}_{sequence}`.
pub open spec fn client_data_id(protocol: Protocol, host_port: u16, host_client_port: u16, sequence: u32) -> Seq<
    char,
> {
    id_prefix(protocol, "client"@) + decimal(host_port as nat) + "_"@ + decimal(
        host_client_port as nat,
    ) + "_"@ + decimal(sequence as nat)
}

/// The local server of an outbound forwarding.
#[derive(Debug, Clone, Copy)]
pub struct OutboundServer {
    port_settings: PortSettings,
}

impl OutboundServer {
    /// The forwarding this server serves.
    pub closed spec fn spec_port_settings(self) -> PortSettings {
        self.port_settings
    }

    /// A server for the outbound forwarding `port_settings`.
    pub fn new(port_settings: PortSettings) -> (res: OutboundServer)
        ensures
            res.spec_port_settings() == port_settings,
    {
        OutboundServer { port_settings }
    }

    /// The forwarding this server serves.
    pub fn port_settings(&self) -> (res: PortSettings)
        ensures
            res == self.spec_port_settings(),
    {
        self.port_settings
    }

    /// The id of the data numbered `sequence` read from the local client on port
    /// `host_client_port`, by the server listening on `host_port`.
    pub fn data_id(&self, host_port: u16, host_client_port: u16, sequence: u32) -> (res: String)
        ensures
            res@ == client_data_id(
                self.spec_port_settings().protocol,
                host_port,
                host_client_port,
                sequence,
            ),
    {
        let mut id = String::new();
        push_id_prefix(&mut id, self.port_settings.protocol, "client");
        push_decimal(&mut id, host_port as u64);
        push_field(&mut id, host_client_port as u64);
        push_field(&mut id, sequence as u64);
        proof {
            assert(id@ =~= client_data_id(
                self.spec_port_settings().protocol,
                host_port,
                host_client_port,
                sequence,
            ));
        }
        id
    }

    /// The `client_data` datagram that carries `bytes`, read from the local client on port
    /// `host_client_port` by the server listening on `host_port`, as data number `sequence`.
    pub fn client_data_for(&self, host_port: u16, host_client_port: u16, sequence: u32, bytes: &[u8]) -> (res:
        ControlDatagram)
        ensures
            has_shape(
                res,
                1,
                "client_data"@,
                client_data_content(
                    client_data_id(
                        self.spec_port_settings().protocol,
                        host_port,
                        host_client_port,
                        sequence,
                    ),
                    sequence,
                    ClientDataSettings {
                        protocol: self.spec_port_settings().protocol,
                        host_port,
                        host_client_port,
                    },
                    base64_encoding(bytes@),
                ),
            ),
            base64_decoding(base64_encoding(bytes@)) == Some(bytes@),
    {
        let id = self.data_id(host_port, host_client_port, sequence);
        let encoded = base64_encode(bytes);
        ControlDatagram::client_data(
            id.as_str(),
            sequence,
            ClientDataSettings { protocol: self.port_settings.protocol, host_port, host_client_port },
            encoded.as_str(),
        )
    }
}

/// A local client of an outbound TCP forwarding receives the peer's answers in order: a
/// `server_data` datagram numbered `n` for the client on `port` is written, as the bytes its
/// base64 text decodes to, exactly when that client's writer expects `n`; data for another
/// client, or out of order, is ignored.
pub proof fn law_server_data_delivered_in_order(
    d: ControlDatagram,
    id: Seq<char>,
    n: u32,
    settings: ServerDataSettings,
    text: Seq<char>,
    port: u16,
    next: u32,
)
    requires
        has_shape(d, 1, "server_data"@, server_data_content(id, n, settings, text)),
    ensures
        sequenced_readable(next, d),
        outbound_tcp_delivery(port, next, d) == if settings.remote_host_client_port == port && n
            == next {
            match base64_decoding(text) {
                Some(b) => Delivery::Write(b),
                None => Delivery::InvalidBase64,
            }
        } else {
            Delivery::Skip
        },
{
    reveal_strlit("id");
    reveal_strlit("sequence");
    reveal_strlit("protocol");
    reveal_strlit("remoteHostPort");
    reveal_strlit("remoteHostClientPort");
    reveal_strlit("base64");
    assert("remoteHostPort"@[10] != "remoteHostClientPort"@[10]);
    assert("sequence"@[0] != "protocol"@[0]);
    assert("sequence"@[0] != "remoteHostPort"@[0]);
    assert("sequence"@[0] != "remoteHostClientPort"@[0]);
    assert("sequence"@[0] != "base64"@[0]);
    assert("sequence"@[0] != "id"@[0]);
    assert("base64"@[0] != "protocol"@[0]);
    assert("base64"@[0] != "remoteHostPort"@[0]);
    assert("base64"@[0] != "remoteHostClientPort"@[0]);
    assert("base64"@[0] != "id"@[0]);
    assert("remoteHostClientPort"@[0] != "id"@[0]);
    assert("remoteHostClientPort"@[0] != "protocol"@[0]);
    lemma_decimal_parses(n as nat);
    lemma_decimal_parses(settings.remote_host_client_port as nat);
}

/// What the UDP server does with a datagram read from a local client.
#[derive(Debug, Clone, Copy, PartialEq, Eq)]
pub enum UdpRead {
    /// An empty read: the client is forgotten and the server stops reading.
    Disconnected,
    /// Send the data to the peer as data number `sequence` of this client.
    Send(u32),
}

/// What the UDP server does with a datagram from the peer.
#[derive(Debug)]
pub enum UdpWrite {
    /// No local client on that port: ignore it.
    Skip,
    /// Send these bytes to the local client on this port.
    SendTo(u16, Vec<u8>),
    /// The datagram is malformed: stop.
    Fail(ReceiveError),
}

/// The local clients of an outbound UDP forwarding, by port: the number of the next data
/// read from each, and of the next data written to each.
pub struct UdpClients {
    clients: HashMap<u16, (u32, u32)>,
}

impl View for UdpClients {
    type V = Map<u16, (u32, u32)>;

    closed spec fn view(&self) -> Map<u16, (u32, u32)> {
        self.clients@
    }
}

impl UdpClients {
    /// No clients.
    pub fn new() -> (res: UdpClients)
        ensures
            res@ == Map::<u16, (u32, u32)>::empty(),
    {
        UdpClients { clients: HashMap::new() }
    }

    fn set(&mut self, port: u16, value: (u32, u32))
        ensures
            final(self)@ == old(self)@.insert(port, value),
    {
        broadcast use vstd::std_specs::hash::group_hash_axioms;

        self.clients.insert(port, value);
    }

    fn remove(&mut self, port: u16)
        ensures
            final(self)@ == old(self)@.remove(port),
    {
        broadcast use vstd::std_specs::hash::group_hash_axioms;

        self.clients.remove(&port);
    }

    fn get(&self, port: u16) -> (res: Option<(u32, u32)>)
        ensures
            match res {
                Some(v) => self@.contains_key(port) && self@[port] == v,
                None => !self@.contains_key(port),
            },
    {
        broadcast use vstd::std_specs::hash::group_hash_axioms;

        match self.clients.get(&port) {
            Some(v) => Some(*v),
            None => None,
        }
    }

    /// Takes a read of `size` bytes from the local client on `port`: a new client is
    /// registered; an empty read forgets the client; otherwise the data gets the client's
    /// next number.
    pub fn on_read(&mut self, port: u16, size: usize) -> (res: UdpRead)
        ensures
            ({
                let entry = if old(self)@.contains_key(port) {
                    old(self)@[port]
                } else {
                    (0u32, 0u32)
                };
                if size == 0 {
                    res == UdpRead::Disconnected && final(self)@ == old(self)@.remove(port)
                } else {
                    res == UdpRead::Send(entry.0) && final(self)@ == old(self)@.insert(
                        port,
                        (next_after(entry.0), entry.1),
                    )
                }
            }),
    {
        let entry = match self.get(port) {
            Some(e) => e,
            None => (0u32, 0u32),
        };
        if size == 0 {
            self.remove(port);
            return UdpRead::Disconnected;
        }
        self.set(port, (entry.0.wrapping_add(1), entry.1));
        UdpRead::Send(entry.0)
    }

    /// Takes a datagram from the peer: its data goes to the local client on the port that
    /// its `remoteHostClientPort` names, if there is one.
    /// Whether taking `d` reads only fields it has: the data of a known client is there.
    pub fn accepts(&self, d: &ControlDatagram) -> (res: bool)
        ensures
            res == (d.content@.contains_key("remoteHostClientPort"@) && spec_parse_u16(
                d.content@["remoteHostClientPort"@],
            ) is Some && self@.contains_key(
                spec_parse_u16(d.content@["remoteHostClientPort"@])->0,
            ) ==> d.content@.contains_key("base64"@)),
    {
        match d.content.get("remoteHostClientPort") {
            None => true,
            Some(p) => match parse_u16(p.as_str()) {
                None => true,
                Some(port) => self.get(port).is_none() || d.content.contains_key("base64"),
            },
        }
    }

    pub fn on_datagram(&mut self, d: &ControlDatagram) -> (res: UdpWrite)
        requires
            d.content@.contains_key("remoteHostClientPort"@) && spec_parse_u16(
                d.content@["remoteHostClientPort"@],
            ) is Some && old(self)@.contains_key(
                spec_parse_u16(d.content@["remoteHostClientPort"@])->0,
            ) ==> d.content@.contains_key("base64"@),
        ensures
            match res {
                UdpWrite::Fail(ReceiveError::MissingClientPort) => !d.content@.contains_key(
                    "remoteHostClientPort"@,
                ) && final(self)@ == old(self)@,
                UdpWrite::Fail(ReceiveError::InvalidClientPort) => d.content@.contains_key(
                    "remoteHostClientPort"@,
                ) && spec_parse_u16(d.content@["remoteHostClientPort"@]) is None && final(self)@
                    == old(self)@,
                UdpWrite::Skip => d.content@.contains_key("remoteHostClientPort"@) && spec_parse_u16(
                    d.content@["remoteHostClientPort"@],
                ) is Some && !old(self)@.contains_key(
                    spec_parse_u16(d.content@["remoteHostClientPort"@])->0,
                ) && final(self)@ == old(self)@,
                UdpWrite::Fail(ReceiveError::InvalidBase64(_)) => d.content@.contains_key(
                    "remoteHostClientPort"@,
                ) && spec_parse_u16(d.content@["remoteHostClientPort"@]) is Some
                    && old(self)@.contains_key(
                    spec_parse_u16(d.content@["remoteHostClientPort"@])->0,
                ) && base64_decoding(d.content@["base64"@]) is None && final(self)@ == old(self)@,
                UdpWrite::SendTo(port, bytes) => {
                    &&& d.content@.contains_key("remoteHostClientPort"@)
                    &&& spec_parse_u16(d.content@["remoteHostClientPort"@]) == Some(port)
                    &&& old(self)@.contains_key(port)
                    &&& base64_decoding(d.content@["base64"@]) == Some(bytes@)
                    &&& final(self)@ == old(self)@.insert(
                        port,
                        (old(self)@[port].0, next_after(old(self)@[port].1)),
                    )
                },
                _ => false,
            },
    {
        let port = match d.content.get("remoteHostClientPort") {
            None => {
                return UdpWrite::Fail(ReceiveError::MissingClientPort);
            },
            Some(p) => match parse_u16(p.as_str()) {
                None => {
                    return UdpWrite::Fail(ReceiveError::InvalidClientPort);
                },
                Some(port) => port,
            },
        };
        let entry = match self.get(port) {
            None => {
                return UdpWrite::Skip;
            },
            Some(e) => e,
        };
        match base64_decode(d.content.get("base64").unwrap().as_str()) {
            Err(message) => UdpWrite::Fail(ReceiveError::InvalidBase64(message)),
            Ok(bytes) => {
                self.set(port, (entry.0, entry.1.wrapping_add(1)));
                UdpWrite::SendTo(port, bytes)
            },
        }
    }
}

} // verus!
