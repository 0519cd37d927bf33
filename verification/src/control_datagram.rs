//! Control datagrams: the messages that the two peers exchange over the tunnel.
use vstd::prelude::*;
use vstd::string::*;
use crate::content::Content;
use crate::settings_models::{lemma_protocol_text_parses, protocol_text, spec_parse_protocol,
    ClientDataSettings, PortSettings, ServerDataSettings};
use crate::text::{decimal, lemma_decimal_parses, push_decimal, spec_parse_u16, spec_parse_u32};

verus! {

/// A control datagram: a version, a type name and string fields.
///
/// The type name is written `type` on the wire.
#[derive(Debug, Clone)]
pub struct ControlDatagram {
    pub version: i32,
    pub kind: String,
    pub content: Content,
}

/// `d` has the given version, type name and fields.
pub open spec fn has_shape(
    d: ControlDatagram,
    version: i32,
    kind: Seq<char>,
    content: Map<Seq<char>, Seq<char>>,
) -> bool {
    &&& d.version == version
    &&& d.kind@ == kind
    &&& d.content@ == content
}

/// The fields of an acknowledgement of `d`: its `id` field, or its type name when it has none.
pub open spec fn ack_content(d: ControlDatagram) -> Map<Seq<char>, Seq<char>> {
    Map::empty().insert(
        "id"@,
        if d.content@.contains_key("id"@) {
            d.content@["id"@]
        } else {
            d.kind@
        },
    )
}

/// The fields of an `input_port` datagram announcing `settings`.
pub open spec fn input_port_content(id: Seq<char>, settings: PortSettings) -> Map<
    Seq<char>,
    Seq<char>,
> {
    Map::empty().insert("id"@, id).insert("protocol"@, protocol_text(settings.protocol)).insert(
        "hostPort"@,
        decimal(settings.host_port as nat),
    ).insert("remoteHostPort"@, decimal(settings.remote_host_port as nat))
}

/// The fields of a `client_data` datagram.
pub open spec fn client_data_content(
    id: Seq<char>,
    sequence: u32,
    settings: ClientDataSettings,
    base64: Seq<char>,
) -> Map<Seq<char>, Seq<char>> {
    Map::empty().insert("id"@, id).insert("sequence"@, decimal(sequence as nat)).insert(
        "protocol"@,
        protocol_text(settings.protocol),
    ).insert("hostPort"@, decimal(settings.host_port as nat)).insert(
        "hostClientPort"@,
        decimal(settings.host_client_port as nat),
    ).insert("base64"@, base64)
}

/// The fields of a `server_data` datagram.
pub open spec fn server_data_content(
    id: Seq<char>,
    sequence: u32,
    settings: ServerDataSettings,
    base64: Seq<char>,
) -> Map<Seq<char>, Seq<char>> {
    Map::empty().insert("id"@, id).insert("sequence"@, decimal(sequence as nat)).insert(
        "protocol"@,
        protocol_text(settings.protocol),
    ).insert("remoteHostPort"@, decimal(settings.remote_host_port as nat)).insert(
        "remoteHostClientPort"@,
        decimal(settings.remote_host_client_port as nat),
    ).insert("base64"@, base64)
}

/// An owned copy of `s`.
pub fn owned(s: &str) -> (res: String)
    ensures
        res@ == s@,
{
    s.to_owned()
}

/// The decimal text of `n`.
pub fn decimal_string(n: u64) -> (res: String)
    ensures
        res@ == decimal(n as nat),
{
    let mut res = String::new();
    push_decimal(&mut res, n);
    res
}

impl ControlDatagram {
    /// The opening message of the handshake.
    pub fn syn() -> (res: ControlDatagram)
        ensures
            has_shape(res, 1, "SYN"@, Map::empty()),
    {
        ControlDatagram { version: 1, kind: owned("SYN"), content: Content::new() }
    }

    /// A keep-alive message.
    pub fn heart_beat() -> (res: ControlDatagram)
        ensures
            has_shape(res, 1, "heart_beat"@, Map::empty()),
    {
        ControlDatagram { version: 1, kind: owned("heart_beat"), content: Content::new() }
    }

    /// The acknowledgement of `datagram`: type `ACK`, with the `id` of `datagram`,
    /// or its type name when it has no `id`.
    pub fn ack(datagram: &ControlDatagram) -> (res: ControlDatagram)
        ensures
            has_shape(res, 1, "ACK"@, ack_content(*datagram)),
    {
        let mut content = Content::new();
        let id = match datagram.content.get("id") {
            Some(id) => id.clone(),
            None => datagram.kind.clone(),
        };
        content.insert(owned("id"), id);
        ControlDatagram { version: 1, kind: owned("ACK"), content }
    }

    /// The announcement of an inbound forwarding `settings` under the message id `id`.
    pub fn input_port(id: &str, settings: &PortSettings) -> (res: ControlDatagram)
        ensures
            has_shape(res, 1, "input_port"@, input_port_content(id@, *settings)),
    {
        let mut content = Content::new();
        content.insert(owned("id"), owned(id));
        content.insert(owned("protocol"), owned(settings.protocol.name()));
        content.insert(owned("hostPort"), decimal_string(settings.host_port as u64));
        content.insert(owned("remoteHostPort"), decimal_string(settings.remote_host_port as u64));
        ControlDatagram { version: 1, kind: owned("input_port"), content }
    }

    /// Data read from a local client of an outbound forwarding, base64-encoded.
    pub fn client_data(id: &str, sequence: u32, settings: ClientDataSettings, base64: &str) -> (res:
        ControlDatagram)
        ensures
            has_shape(
                res,
                1,
                "client_data"@,
                client_data_content(id@, sequence, settings, base64@),
            ),
    {
        let mut content = Content::new();
        content.insert(owned("id"), owned(id));
        content.insert(owned("sequence"), decimal_string(sequence as u64));
        content.insert(owned("protocol"), owned(settings.protocol.name()));
        content.insert(owned("hostPort"), decimal_string(settings.host_port as u64));
        content.insert(owned("hostClientPort"), decimal_string(settings.host_client_port as u64));
        content.insert(owned("base64"), owned(base64));
        ControlDatagram { version: 1, kind: owned("client_data"), content }
    }

    /// Data read from a local server of an inbound forwarding, base64-encoded.
    pub fn server_data(id: &str, sequence: u32, settings: ServerDataSettings, base64: &str) -> (res:
        ControlDatagram)
        ensures
            has_shape(
                res,
                1,
                "server_data"@,
                server_data_content(id@, sequence, settings, base64@),
            ),
    {
        let mut content = Content::new();
        content.insert(owned("id"), owned(id));
        content.insert(owned("sequence"), decimal_string(sequence as u64));
        content.insert(owned("protocol"), owned(settings.protocol.name()));
        content.insert(owned("remoteHostPort"), decimal_string(settings.remote_host_port as u64));
        content.insert(
            owned("remoteHostClientPort"),
            decimal_string(settings.remote_host_client_port as u64),
        );
        content.insert(owned("base64"), owned(base64));
        ControlDatagram { version: 1, kind: owned("server_data"), content }
    }
}

/// The fields of a `server_data` datagram, read back: each is there, the ports and the
/// protocol parse to those of `settings`, the data and id are those given.
pub proof fn lemma_server_data_fields(
    id: Seq<char>,
    sequence: u32,
    settings: ServerDataSettings,
    base64: Seq<char>,
)
    ensures
        ({
            let c = server_data_content(id, sequence, settings, base64);
            &&& c.contains_key("id"@) && c["id"@] == id
            &&& c.contains_key("sequence"@) && spec_parse_u32(c["sequence"@]) == Some(sequence)
            &&& c.contains_key("protocol"@) && spec_parse_protocol(c["protocol"@]) == Some(
                settings.protocol,
            )
            &&& c.contains_key("remoteHostPort"@) && spec_parse_u16(c["remoteHostPort"@]) == Some(
                settings.remote_host_port,
            )
            &&& c.contains_key("remoteHostClientPort"@) && spec_parse_u16(
                c["remoteHostClientPort"@],
            ) == Some(settings.remote_host_client_port)
            &&& c.contains_key("base64"@) && c["base64"@] == base64
        }),
{
    reveal_strlit("id");
    reveal_strlit("sequence");
    reveal_strlit("protocol");
    reveal_strlit("remoteHostPort");
    reveal_strlit("remoteHostClientPort");
    reveal_strlit("base64");
    assert("remoteHostPort"@[10] != "remoteHostClientPort"@[10]);
    assert("sequence"@[0] != "protocol"@[0]);
    assert("sequence"@[0] != "remoteHostPort"@[0]);
    assert("sequence"@[0] != "remoteHostClientPort"@[0]);
    assert("sequence"@[0] != "base64"@[0]);
    assert("sequence"@[0] != "id"@[0]);
    assert("base64"@[0] != "protocol"@[0]);
    assert("base64"@[0] != "remoteHostPort"@[0]);
    assert("base64"@[0] != "remoteHostClientPort"@[0]);
    assert("base64"@[0] != "id"@[0]);
    assert("remoteHostClientPort"@[0] != "id"@[0]);
    assert("remoteHostClientPort"@[0] != "protocol"@[0]);
    assert("remoteHostPort"@[0] != "id"@[0]);
    assert("remoteHostPort"@[0] != "protocol"@[0]);
    assert("protocol"@[0] != "id"@[0]);
    lemma_protocol_text_parses(settings.protocol);
    lemma_decimal_parses(sequence as nat);
    lemma_decimal_parses(settings.remote_host_port as nat);
    lemma_decimal_parses(settings.remote_host_client_port as nat);
}

} // verus!
