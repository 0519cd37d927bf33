//! The local end of an inbound forwarding: a connection to a local server on behalf of a
//! client of the peer.
use vstd::prelude::*;
use vstd::string::*;
use crate::base64_codec::{base64_decoding, base64_encode, base64_encoding};
use crate::control_datagram::{has_shape, owned, server_data_content, client_data_content, ControlDatagram};
use crate::delivery::{decoded_data, inbound_tcp_delivery, sequenced_readable, Delivery};
use crate::ip_version::IpVersion;
use crate::settings_models::{ClientDataSettings, PortSettings, Protocol, ServerDataSettings};
use crate::text::{decimal, lemma_decimal_parses, push_decimal};

verus! {

/// `tcp` or `udp` followed by `_role_`.
pub open spec fn id_prefix(protocol: Protocol, role: Seq<char>) -> Seq<char> {
    match protocol {
        Protocol::Tcp => "tcp_"@ + role + "_"@,
        Protocol::Udp => "udp_"@ + role + "_"@,
    }
}

/// The id of data that an inbound forwarding read from its local server:
/// `{tcp|udp}_server_{host_port}_{host_client_port}_{remote_host_port}_{remote_host_client_port}_{sequence}`.
pub open spec fn server_data_id(
    settings: PortSettings,
    host_client_port: u16,
    remote_client_port: u16,
    sequence: u32,
) -> Seq<char> {
    id_prefix(settings.protocol, "server"@) + decimal(settings.host_port as nat) + "_"@ + decimal(
        host_client_port as nat,
    ) + "_"@ + decimal(settings.remote_host_port as nat) + "_"@ + decimal(remote_client_port as nat)
        + "_"@ + decimal(sequence as nat)
}

/// Appends `tcp_` or `udp_`, the role, and `_`.
pub(crate) fn push_id_prefix(s: &mut String, protocol: Protocol, role: &str)
    ensures
        final(s)@ == old(s)@ + id_prefix(protocol, role@),
{
    match protocol {
        Protocol::Tcp => s.append("tcp_"),
        Protocol::Udp => s.append("udp_"),
    }
    s.append(role);
    s.append("_");
}

/// Appends `_` and the decimal text of `n`.
pub(crate) fn push_field(s: &mut String, n: u64)
    ensures
        final(s)@ == old(s)@ + "_"@ + decimal(n as nat),
{
    s.append("_");
    push_decimal(s, n);
}

/// The local end of an inbound forwarding.
#[derive(Debug, Clone, Copy)]
pub struct InboundClient {
    ip_version: IpVersion,
    port_settings: PortSettings,
    remote_client_port: u16,
}

impl InboundClient {
    /// The IP version of the local connection.
    pub closed spec fn spec_ip_version(self) -> IpVersion {
        self.ip_version
    }

    /// The forwarding this client serves.
    pub closed spec fn spec_port_settings(self) -> PortSettings {
        self.port_settings
    }

    /// The port of the peer's client that this connection answers.
    pub closed spec fn spec_remote_client_port(self) -> u16 {
        self.remote_client_port
    }

    /// A client for the peer's client on `remote_client_port` of the forwarding `port_settings`.
    pub fn new(ip_version: IpVersion, port_settings: PortSettings, remote_client_port: u16) -> (res:
        InboundClient)
        ensures
            res.spec_ip_version() == ip_version,
            res.spec_port_settings() == port_settings,
            res.spec_remote_client_port() == remote_client_port,
    {
        InboundClient { ip_version, port_settings, remote_client_port }
    }

    /// The IP version of the local connection.
    pub fn ip_version(&self) -> (res: IpVersion)
        ensures
            res == self.spec_ip_version(),
    {
        self.ip_version
    }

    /// The forwarding this client serves.
    pub fn port_settings(&self) -> (res: PortSettings)
        ensures
            res == self.spec_port_settings(),
    {
        self.port_settings
    }

    /// The port of the peer's client that this connection answers.
    pub fn remote_client_port(&self) -> (res: u16)
        ensures
            res == self.spec_remote_client_port(),
    {
        self.remote_client_port
    }

    /// The id of the data numbered `sequence`, read on the local connection from port
    /// `host_client_port`.
    pub fn data_id(&self, host_client_port: u16, sequence: u32) -> (res: String)
        ensures
            res@ == server_data_id(
                self.spec_port_settings(),
                host_client_port,
                self.spec_remote_client_port(),
                sequence,
            ),
    {
        let mut id = String::new();
        push_id_prefix(&mut id, self.port_settings.protocol, "server");
        push_decimal(&mut id, self.port_settings.host_port as u64);
        push_field(&mut id, host_client_port as u64);
        push_field(&mut id, self.port_settings.remote_host_port as u64);
        push_field(&mut id, self.remote_client_port as u64);
        push_field(&mut id, sequence as u64);
        proof {
            assert(id@ =~= server_data_id(
                self.spec_port_settings(),
                host_client_port,
                self.spec_remote_client_port(),
                sequence,
            ));
        }
        id
    }

    /// The `server_data` datagram that carries `bytes`, read from the local server on the
    /// connection from port `host_client_port`, as data number `sequence`.
    pub fn server_data_for(&self, host_client_port: u16, sequence: u32, bytes: &[u8]) -> (res:
        ControlDatagram)
        ensures
            has_shape(
                res,
                1,
                "server_data"@,
                server_data_content(
                    server_data_id(
                        self.spec_port_settings(),
                        host_client_port,
                        self.spec_remote_client_port(),
                        sequence,
                    ),
                    sequence,
                    ServerDataSettings {
                        protocol: self.spec_port_settings().protocol,
                        remote_host_port: self.spec_port_settings().remote_host_port,
                        remote_host_client_port: self.spec_remote_client_port(),
                    },
                    base64_encoding(bytes@),
                ),
            ),
            base64_decoding(base64_encoding(bytes@)) == Some(bytes@),
    {
        let id = self.data_id(host_client_port, sequence);
        let encoded = base64_encode(bytes);
        ControlDatagram::server_data(
            id.as_str(),
            sequence,
            ServerDataSettings {
                protocol: self.port_settings.protocol,
                remote_host_port: self.port_settings.remote_host_port,
                remote_host_client_port: self.remote_client_port,
            },
            encoded.as_str(),
        )
    }
}

/// The local connection of an inbound TCP forwarding writes the peer's data in order: a
/// `client_data` datagram numbered `n` is written, as the bytes its base64 text decodes to,
/// exactly when the writer expects `n`, and is ignored otherwise.
pub proof fn law_client_data_delivered_in_order(
    d: ControlDatagram,
    id: Seq<char>,
    n: u32,
    settings: ClientDataSettings,
    text: Seq<char>,
    next: u32,
)
    requires
        has_shape(d, 1, "client_data"@, client_data_content(id, n, settings, text)),
    ensures
        sequenced_readable(next, d),
        inbound_tcp_delivery(next, d) == if n == next {
            match base64_decoding(text) {
                Some(b) => Delivery::Write(b),
                None => Delivery::InvalidBase64,
            }
        } else {
            Delivery::Skip
        },
{
    reveal_strlit("id");
    reveal_strlit("sequence");
    reveal_strlit("protocol");
    reveal_strlit("hostPort");
    reveal_strlit("hostClientPort");
    reveal_strlit("base64");
    reveal_strlit("client_data");
    reveal_strlit("close");
    assert("client_data"@[2] != "close"@[2]);
    assert("sequence"@[0] != "protocol"@[0]);
    assert("sequence"@[0] != "hostPort"@[0]);
    assert("sequence"@[0] != "hostClientPort"@[0]);
    assert("sequence"@[0] != "base64"@[0]);
    assert("base64"@[0] != "protocol"@[0]);
    assert("base64"@[0] != "hostPort"@[0]);
    assert("base64"@[0] != "hostClientPort"@[0]);
    assert("base64"@[0] != "id"@[0]);
    assert("sequence"@[0] != "id"@[0]);
    lemma_decimal_parses(n as nat);
}

} // verus!
