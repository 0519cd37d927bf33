//! Decisions of the tunnel: reading the settings that the peer announces, and the routes that
//! received datagrams take.
use vstd::prelude::*;
use vstd::string::*;
use crate::content::{keys_distinct, lemma_map_of_absent, lemma_map_of_entry, lemma_map_of_push,
    lemma_map_of_update, map_of, str_equal, Content};
use crate::control_datagram::{lemma_server_data_fields, server_data_content, ack_content, decimal_string, has_shape, input_port_content, owned,
    ControlDatagram};
use crate::fragment_handler::{fragment_accepted, fragment_step, FragmentHandler, FragmentStore};
use crate::inbound_client::InboundClient;
use crate::ip_version::IpVersion;
use crate::settings_models::{lemma_protocol_text_parses, protocol_text, spec_parse_protocol,
    PortSettings, Protocol, ServerDataSettings};
use crate::text::{decimal, lemma_decimal_parses, parse_isize, parse_u16, spec_parse_isize,
    spec_parse_u16};

verus! {

/// Reading the inbound settings that a peer announces reads only fields the datagram has.
pub open spec fn remote_inbound_readable(d: ControlDatagram) -> bool {
    let c = d.content@;
    &&& c.contains_key("protocol"@)
    &&& c.contains_key("hostPort"@)
    &&& c.contains_key("remoteHostPort"@)
    &&& spec_parse_protocol(c["protocol"@]) is Some ==> {
        &&& spec_parse_u16(c["hostPort"@]) is Some
        &&& spec_parse_u16(c["remoteHostPort"@]) is Some
    }
}

/// The inbound settings announced by an `input_port` datagram, or the message for an
/// unknown protocol.
pub open spec fn spec_remote_inbound_settings(d: ControlDatagram) -> Result<PortSettings, Seq<char>> {
    let c = d.content@;
    match spec_parse_protocol(c["protocol"@]) {
        None => Err("invalid protocol "@ + c["protocol"@]),
        Some(p) => Ok(
            PortSettings {
                protocol: p,
                host_port: spec_parse_u16(c["hostPort"@]).unwrap(),
                remote_host_port: spec_parse_u16(c["remoteHostPort"@]).unwrap(),
            },
        ),
    }
}

/// The view of a result with a text error.
pub open spec fn result_view<T>(r: Result<T, String>) -> Result<T, Seq<char>> {
    match r {
        Ok(v) => Ok(v),
        Err(e) => Err(e@),
    }
}

/// The inbound settings that the peer announced in an `input_port` datagram.
pub fn parse_remote_inbound_settings(datagram: &ControlDatagram) -> (res: Result<PortSettings, String>)
    requires
        remote_inbound_readable(*datagram),
    ensures
        result_view(res) == spec_remote_inbound_settings(*datagram),
{
    let protocol_str = datagram.content.get("protocol").unwrap();
    let host_port_str = datagram.content.get("hostPort").unwrap();
    let remote_host_port_str = datagram.content.get("remoteHostPort").unwrap();
    let protocol = match Protocol::parse(protocol_str.as_str()) {
        Some(p) => p,
        None => {
            let mut message = owned("invalid protocol ");
            message.append(protocol_str.as_str());
            return Err(message);
        },
    };
    Ok(
        PortSettings {
            protocol,
            host_port: parse_u16(host_port_str.as_str()).unwrap(),
            remote_host_port: parse_u16(remote_host_port_str.as_str()).unwrap(),
        },
    )
}

/// What one peer announces with `input_port`, the other reads back unchanged.
pub proof fn law_input_port_round_trip(d: ControlDatagram, id: Seq<char>, settings: PortSettings)
    requires
        has_shape(d, 1, "input_port"@, input_port_content(id, settings)),
    ensures
        remote_inbound_readable(d),
        spec_remote_inbound_settings(d) == Ok::<PortSettings, Seq<char>>(settings),
{
    reveal_strlit("id");
    reveal_strlit("protocol");
    reveal_strlit("hostPort");
    reveal_strlit("remoteHostPort");
    assert("id"@[0] != "protocol"@[0]);
    assert("id"@[0] != "hostPort"@[0]);
    assert("id"@[0] != "remoteHostPort"@[0]);
    assert("protocol"@[0] != "hostPort"@[0]);
    assert("protocol"@[0] != "remoteHostPort"@[0]);
    assert("hostPort"@[0] != "remoteHostPort"@[0]);
    lemma_protocol_text_parses(settings.protocol);
    lemma_decimal_parses(settings.host_port as nat);
    lemma_decimal_parses(settings.remote_host_port as nat);
}


/// What a received datagram of version 1 becomes before it is routed.
#[derive(Debug)]
pub enum Arrival {
    /// A fragment was stored; its datagram is not complete yet.
    Pending,
    /// The last missing fragment arrived: the text of the whole datagram, to be parsed.
    Reassembled(String),
    /// A datagram that is not a fragment, to be routed as it is.
    Whole(ControlDatagram),
    /// A fragment whose `index` is not a number: the receiver stops.
    MalformedIndex,
}

/// Receiving `d` is defined: it has version 1, and it reads only fields it has.
pub open spec fn arrival_readable(store: FragmentStore, d: ControlDatagram) -> bool {
    &&& d.version == 1
    &&& d.kind@ == "fragment"@ && !(d.content@.contains_key("index"@) && spec_parse_isize(
        d.content@["index"@],
    ) is None) ==> fragment_accepted(store, d.content@)
}

/// The receiving side of the tunnel: reassembles fragmented datagrams.
pub struct TunnelReceiver {
    fragments: FragmentHandler,
}

impl TunnelReceiver {
    /// The fragments held.
    pub closed spec fn store(self) -> FragmentStore {
        self.fragments@
    }

    /// A receiver that holds no fragments.
    pub fn new() -> (res: TunnelReceiver)
        ensures
            res.store() == FragmentStore::empty(),
    {
        TunnelReceiver { fragments: FragmentHandler::new() }
    }

    /// Whether receiving `d` is defined (`arrival_readable`).
    pub fn accepts(&self, d: &ControlDatagram) -> (res: bool)
        ensures
            res == arrival_readable(self.store(), *d),
    {
        if d.version != 1 {
            return false;
        }
        if !str_equal(d.kind.as_str(), "fragment") {
            return true;
        }
        if let Some(index) = d.content.get("index") {
            if parse_isize(index.as_str()).is_none() {
                return true;
            }
        }
        self.fragments.accepts(d)
    }

    /// Takes a received datagram of version 1: a fragment goes to the fragment handler, any
    /// other datagram is passed on.
    pub fn on_datagram(&mut self, d: ControlDatagram) -> (res: Arrival)
        requires
            arrival_readable(old(self).store(), d),
        ensures
            d.kind@ != "fragment"@ ==> res is Whole && res->Whole_0 == d && final(self).store()
                == old(self).store(),
            d.kind@ == "fragment"@ && d.content@.contains_key("index"@) && spec_parse_isize(
                d.content@["index"@],
            ) is None ==> res is MalformedIndex && final(self).store() == old(self).store(),
            d.kind@ == "fragment"@ && !(d.content@.contains_key("index"@) && spec_parse_isize(
                d.content@["index"@],
            ) is None) ==> {
                let (store, text) = fragment_step(old(self).store(), d.content@);
                &&& final(self).store() == store
                &&& match res {
                    Arrival::Pending => text is None,
                    Arrival::Reassembled(json) => text == Some(json@),
                    _ => false,
                }
            },
    {
        if !str_equal(d.kind.as_str(), "fragment") {
            return Arrival::Whole(d);
        }
        if let Some(index) = d.content.get("index") {
            if parse_isize(index.as_str()).is_none() {
                return Arrival::MalformedIndex;
            }
        }
        match self.fragments.get_complete_datagram(d) {
            None => Arrival::Pending,
            Some(json) => Arrival::Reassembled(json),
        }
    }
}

/// Where a complete datagram goes.
#[derive(Debug)]
pub enum Route {
    /// An acknowledgement: the id it acknowledges goes to whoever waits for it.
    Ack(String),
    /// Data from a client of the peer: goes to the inbound forwardings.
    ClientData,
    /// Data from a server of the peer: goes to the outbound forwardings.
    ServerData,
    /// A late announcement of the peer: its settings, or why they could not be read.
    RemoteInbound(Result<PortSettings, String>),
    /// Anything else is ignored.
    Skipped,
}

/// Routing `d` reads only fields it has.
pub open spec fn route_readable(d: ControlDatagram) -> bool {
    &&& d.kind@ == "ACK"@ ==> d.content@.contains_key("id"@)
    &&& d.kind@ == "input_port"@ ==> remote_inbound_readable(d)
}

/// Whether reading the announced settings of `d` reads only fields it has.
pub fn remote_inbound_accepts(d: &ControlDatagram) -> (res: bool)
    ensures
        res == remote_inbound_readable(*d),
{
    let protocol = d.content.get("protocol");
    let host_port = d.content.get("hostPort");
    let remote_host_port = d.content.get("remoteHostPort");
    if protocol.is_none() || host_port.is_none() || remote_host_port.is_none() {
        return false;
    }
    match Protocol::parse(protocol.unwrap().as_str()) {
        None => true,
        Some(_) => parse_u16(host_port.unwrap().as_str()).is_some() && parse_u16(
            remote_host_port.unwrap().as_str(),
        ).is_some(),
    }
}

/// Whether routing `d` reads only fields it has.
pub fn route_accepts(d: &ControlDatagram) -> (res: bool)
    ensures
        res == route_readable(*d),
{
    if str_equal(d.kind.as_str(), "ACK") && !d.content.contains_key("id") {
        return false;
    }
    !str_equal(d.kind.as_str(), "input_port") || remote_inbound_accepts(d)
}

/// Routes a complete datagram; returns the acknowledgement to send back, for every datagram
/// that is not itself one, and the route.
pub fn route(d: &ControlDatagram) -> (res: (Option<ControlDatagram>, Route))
    requires
        route_readable(*d),
    ensures
        d.kind@ != "ACK"@ ==> res.0 is Some && has_shape(res.0->0, 1, "ACK"@, ack_content(*d)),
        d.kind@ == "ACK"@ ==> res.0 is None && res.1 is Ack && res.1->Ack_0@ == d.content@["id"@],
        d.kind@ == "client_data"@ ==> res.1 is ClientData,
        d.kind@ == "server_data"@ ==> res.1 is ServerData,
        d.kind@ == "input_port"@ ==> res.1 is RemoteInbound && result_view(res.1->RemoteInbound_0)
            == spec_remote_inbound_settings(*d),
        d.kind@ != "ACK"@ && d.kind@ != "client_data"@ && d.kind@ != "server_data"@ && d.kind@
            != "input_port"@ ==> res.1 is Skipped,
{
    proof {
        reveal_strlit("ACK");
        reveal_strlit("client_data");
        reveal_strlit("server_data");
        reveal_strlit("input_port");
        assert("ACK"@[0] != "client_data"@[0]);
        assert("ACK"@[0] != "server_data"@[0]);
        assert("ACK"@[0] != "input_port"@[0]);
        assert("client_data"@[0] != "server_data"@[0]);
        assert("client_data"@[0] != "input_port"@[0]);
        assert("server_data"@[0] != "input_port"@[0]);
    }
    if str_equal(d.kind.as_str(), "ACK") {
        return (None, Route::Ack(d.content.get("id").unwrap().clone()));
    }
    let reply = Some(ControlDatagram::ack(d));
    let route = if str_equal(d.kind.as_str(), "client_data") {
        Route::ClientData
    } else if str_equal(d.kind.as_str(), "server_data") {
        Route::ServerData
    } else if str_equal(d.kind.as_str(), "input_port") {
        Route::RemoteInbound(parse_remote_inbound_settings(d))
    } else {
        Route::Skipped
    };
    (reply, route)
}

/// Why a data datagram could not be routed; each ends the routing loop.
#[derive(Debug, Clone, Copy, PartialEq, Eq)]
pub enum RouteError {
    /// A port field is not a `u16`.
    InvalidPort,
    /// The `protocol` field is neither `tcp` nor `udp`.
    InvalidProtocol,
}

/// The outbound forwarding that a `server_data` datagram answers: its `remoteHostPort` and
/// protocol.
pub open spec fn spec_outbound_key(d: ControlDatagram) -> Result<(u16, Protocol), RouteError> {
    match spec_parse_u16(d.content@["remoteHostPort"@]) {
        None => Err(RouteError::InvalidPort),
        Some(port) => match spec_parse_protocol(d.content@["protocol"@]) {
            None => Err(RouteError::InvalidProtocol),
            Some(p) => Ok((port, p)),
        },
    }
}

/// Whether finding the outbound forwarding of `d` reads only fields it has.
pub fn outbound_key_accepts(d: &ControlDatagram) -> (res: bool)
    ensures
        res == (d.content@.contains_key("remoteHostPort"@) && (spec_parse_u16(
            d.content@["remoteHostPort"@],
        ) is Some ==> d.content@.contains_key("protocol"@))),
{
    match d.content.get("remoteHostPort") {
        None => false,
        Some(p) => parse_u16(p.as_str()).is_none() || d.content.contains_key("protocol"),
    }
}

/// The key of the outbound forwarding that a `server_data` datagram goes to.
pub fn outbound_key(d: &ControlDatagram) -> (res: Result<(u16, Protocol), RouteError>)
    requires
        d.content@.contains_key("remoteHostPort"@),
        spec_parse_u16(d.content@["remoteHostPort"@]) is Some ==> d.content@.contains_key(
            "protocol"@,
        ),
    ensures
        res == spec_outbound_key(*d),
        match res {
            Ok((port, p)) => spec_parse_u16(d.content@["remoteHostPort"@]) == Some(port)
                && spec_parse_protocol(d.content@["protocol"@]) == Some(p),
            Err(RouteError::InvalidPort) => spec_parse_u16(d.content@["remoteHostPort"@]) is None,
            Err(RouteError::InvalidProtocol) => spec_parse_u16(d.content@["remoteHostPort"@]) is Some
                && spec_parse_protocol(d.content@["protocol"@]) is None,
        },
{
    let port = match parse_u16(d.content.get("remoteHostPort").unwrap().as_str()) {
        None => {
            return Err(RouteError::InvalidPort);
        },
        Some(p) => p,
    };
    match Protocol::parse(d.content.get("protocol").unwrap().as_str()) {
        None => Err(RouteError::InvalidProtocol),
        Some(p) => Ok((port, p)),
    }
}


/// An inbound connection: the peer's forwarded port, the port of the peer's client, and the
/// protocol.
pub type InboundKey = (u16, u16, Protocol);

/// The first of our inbound forwardings with protocol `p` whose remote port is `port`.
pub open spec fn first_inbound_match(inbound: Seq<PortSettings>, p: Protocol, port: u16) -> Option<
    PortSettings,
>
    decreases inbound.len(),
{
    if inbound.len() == 0 {
        None
    } else if inbound[0].protocol == p && inbound[0].remote_host_port == port {
        Some(inbound[0])
    } else {
        first_inbound_match(inbound.drop_first(), p, port)
    }
}

/// Where a `client_data` datagram goes.
#[derive(Debug)]
pub enum ClientDataRoute {
    /// None of our inbound forwardings matches it: skip it.
    Unmatched,
    /// No connection exists for it and it is not the first data of one: skip it.
    NoClient,
    /// Forward it to the connection `key`, which is to be started first with `new_client`
    /// when it did not exist.
    Forward { key: InboundKey, new_client: Option<InboundClient> },
}

/// Routing a `client_data` datagram reads only fields it has.
pub open spec fn client_data_readable(
    registry: Map<InboundKey, u64>,
    d: ControlDatagram,
    inbound: Seq<PortSettings>,
) -> bool {
    let c = d.content@;
    &&& c.contains_key("hostPort"@)
    &&& spec_parse_u16(c["hostPort"@]) is Some ==> c.contains_key("hostClientPort"@)
    &&& spec_parse_u16(c["hostPort"@]) is Some && spec_parse_u16(c["hostClientPort"@]) is Some
        ==> c.contains_key("protocol"@)
    &&& (spec_parse_u16(c["hostPort"@]) is Some && spec_parse_u16(c["hostClientPort"@]) is Some
        && spec_parse_protocol(c["protocol"@]) is Some && first_inbound_match(
        inbound,
        spec_parse_protocol(c["protocol"@])->0,
        spec_parse_u16(c["hostPort"@])->0,
    ) is Some && !registry.contains_key(
        (
            spec_parse_u16(c["hostPort"@])->0,
            spec_parse_u16(c["hostClientPort"@])->0,
            spec_parse_protocol(c["protocol"@])->0,
        ),
    )) ==> c.contains_key("sequence"@)
}

/// The first of `inbound` with protocol `p` whose remote port is `port`.
fn find_inbound(inbound: &Vec<PortSettings>, p: Protocol, port: u16) -> (res: Option<PortSettings>)
    ensures
        res == first_inbound_match(inbound@, p, port),
{
    let mut found: Option<PortSettings> = None;
    let mut i: usize = 0;
    assert(inbound@.skip(0) =~= inbound@);
    while i < inbound.len()
        invariant
            i <= inbound@.len(),
            first_inbound_match(inbound@, p, port) == match found {
                Some(s) => Some(s),
                None => first_inbound_match(inbound@.skip(i as int), p, port),
            },
        decreases inbound@.len() - i,
    {
        if found.is_none() {
            let s = inbound[i];
            let ghost rest = inbound@.skip(i as int);
            assert(rest[0] == s);
            assert(rest.drop_first() =~= inbound@.skip(i + 1));
            if s.protocol == p && s.remote_host_port == port {
                found = Some(s);
            }
        }
        i = i + 1;
    }
    assert(inbound@.skip(i as int) =~= Seq::<PortSettings>::empty());
    found
}

/// A connection that has seen no data for more than two hours is stale.
pub open spec fn stale(now: u64, last_activity: u64) -> bool {
    (if now >= last_activity {
        now - last_activity
    } else {
        now - last_activity + 0x1_0000_0000_0000_0000
    }) > 7200
}

/// The fields of the `close` datagram for the connection `key`.
pub open spec fn close_content(key: InboundKey) -> Map<Seq<char>, Seq<char>> {
    Map::empty().insert("hostPort"@, decimal(key.0 as nat)).insert(
        "hostClientPort"@,
        decimal(key.1 as nat),
    ).insert("protocol"@, protocol_text(key.2))
}

/// The connections of `m` that are not stale at time `now`.
pub open spec fn fresh_part(m: Map<InboundKey, u64>, now: u64) -> Map<InboundKey, u64> {
    Map::new(|k: InboundKey| m.contains_key(k) && !stale(now, m[k]), |k: InboundKey| m[k])
}

/// The inbound connections that exist, with the time of their last data.
pub struct InboundRegistry {
    clients: Vec<(InboundKey, u64)>,
}

impl InboundRegistry {
    #[verifier::type_invariant]
    closed spec fn well_formed(self) -> bool {
        keys_distinct(self.clients@)
    }
}

impl View for InboundRegistry {
    type V = Map<InboundKey, u64>;

    closed spec fn view(&self) -> Map<InboundKey, u64> {
        map_of(self.clients@)
    }
}

impl InboundRegistry {
    /// No connections.
    pub fn new() -> (res: InboundRegistry)
        ensures
            res@ == Map::<InboundKey, u64>::empty(),
    {
        InboundRegistry { clients: Vec::new() }
    }

    fn position(&self, key: InboundKey) -> (res: Option<usize>)
        ensures
            match res {
                Some(i) => i < self.clients@.len() && self.clients@[i as int].0 == key,
                None => forall|i: int| 0 <= i < self.clients@.len() ==> self.clients@[i].0 != key,
            },
    {
        let mut i: usize = 0;
        while i < self.clients.len()
            invariant
                i <= self.clients@.len(),
                forall|k: int| 0 <= k < i ==> self.clients@[k].0 != key,
            decreases self.clients@.len() - i,
        {
            let k = self.clients[i].0;
            if k.0 == key.0 && k.1 == key.1 && k.2 == key.2 {
                return Some(i);
            }
            i = i + 1;
        }
        None
    }

    /// Whether the connection `key` exists.
    pub fn contains(&self, key: InboundKey) -> (res: bool)
        ensures
            res == self@.contains_key(key),
    {
        proof {
            use_type_invariant(self);
        }
        match self.position(key) {
            Some(i) => {
                proof {
                    lemma_map_of_entry(self.clients@, i as int);
                }
                true
            },
            None => {
                proof {
                    lemma_map_of_absent(self.clients@, key);
                }
                false
            },
        }
    }

    fn set(&mut self, key: InboundKey, last_activity: u64)
        ensures
            final(self)@ == old(self)@.insert(key, last_activity),
    {
        proof {
            use_type_invariant(&*self);
        }
        let ghost old_clients = self.clients@;
        let pos = self.position(key);
        let mut clients = Vec::new();
        std::mem::swap(&mut clients, &mut self.clients);
        match pos {
            Some(i) => {
                clients.set(i, (key, last_activity));
                proof {
                    lemma_map_of_update(old_clients, i as int, key, last_activity);
                    assert(clients@ =~= old_clients.update(i as int, (key, last_activity)));
                }
            },
            None => {
                clients.push((key, last_activity));
                proof {
                    lemma_map_of_absent(old_clients, key);
                    lemma_map_of_push(old_clients, key, last_activity);
                }
            },
        }
        self.clients = clients;
    }

    /// Whether routing the `client_data` datagram `d` reads only fields it has.
    pub fn accepts_client_data(&self, d: &ControlDatagram, inbound: &Vec<PortSettings>) -> (res:
        bool)
        ensures
            res == client_data_readable(self@, *d, inbound@),
    {
        let host_port = match d.content.get("hostPort") {
            None => {
                return false;
            },
            Some(t) => match parse_u16(t.as_str()) {
                None => {
                    return true;
                },
                Some(p) => p,
            },
        };
        let client_port = match d.content.get("hostClientPort") {
            None => {
                return false;
            },
            Some(t) => match parse_u16(t.as_str()) {
                None => {
                    return true;
                },
                Some(p) => p,
            },
        };
        let protocol = match d.content.get("protocol") {
            None => {
                return false;
            },
            Some(t) => match Protocol::parse(t.as_str()) {
                None => {
                    return true;
                },
                Some(p) => p,
            },
        };
        if find_inbound(inbound, protocol, host_port).is_none() {
            return true;
        }
        self.contains((host_port, client_port, protocol)) || d.content.contains_key("sequence")
    }

    /// Routes a `client_data` datagram received at time `now`: it goes to the connection of
    /// the peer's client, which is registered when this is its first data (sequence `0`) for
    /// one of our `inbound` forwardings; the connection's last activity becomes `now`.
    pub fn on_client_data(
        &mut self,
        d: &ControlDatagram,
        inbound: &Vec<PortSettings>,
        ip_version: IpVersion,
        now: u64,
    ) -> (res: Result<ClientDataRoute, RouteError>)
        requires
            client_data_readable(old(self)@, *d, inbound@),
        ensures
            ({
                let c = d.content@;
                let host_port = spec_parse_u16(c["hostPort"@]);
                let client_port = spec_parse_u16(c["hostClientPort"@]);
                let protocol = spec_parse_protocol(c["protocol"@]);
                if host_port is None || client_port is None {
                    res == Err::<ClientDataRoute, RouteError>(RouteError::InvalidPort) && final(self)@
                        == old(self)@
                } else if protocol is None {
                    res == Err::<ClientDataRoute, RouteError>(RouteError::InvalidProtocol)
                        && final(self)@ == old(self)@
                } else {
                    let key = (host_port->0, client_port->0, protocol->0);
                    match first_inbound_match(inbound@, protocol->0, host_port->0) {
                        None => res matches Ok(ClientDataRoute::Unmatched) && final(self)@ == old(
                            self,
                        )@,
                        Some(settings) => if !old(self)@.contains_key(key) && c["sequence"@]
                            != "0"@ {
                            res matches Ok(ClientDataRoute::NoClient) && final(self)@ == old(self)@
                        } else {
                            &&& res matches Ok(ClientDataRoute::Forward { key: k, new_client: n })
                            &&& res->Ok_0->key == key
                            &&& final(self)@ == old(self)@.insert(key, now)
                            &&& match res->Ok_0->new_client {
                                Some(client) => !old(self)@.contains_key(key)
                                    && client.spec_ip_version() == ip_version
                                    && client.spec_port_settings() == settings
                                    && client.spec_remote_client_port() == client_port->0,
                                None => old(self)@.contains_key(key),
                            }
                        },
                    }
                }
            }),
    {
        let host_port = match parse_u16(d.content.get("hostPort").unwrap().as_str()) {
            None => {
                return Err(RouteError::InvalidPort);
            },
            Some(p) => p,
        };
        let client_port = match parse_u16(d.content.get("hostClientPort").unwrap().as_str()) {
            None => {
                return Err(RouteError::InvalidPort);
            },
            Some(p) => p,
        };
        let protocol = match Protocol::parse(d.content.get("protocol").unwrap().as_str()) {
            None => {
                return Err(RouteError::InvalidProtocol);
            },
            Some(p) => p,
        };
        let settings = match find_inbound(inbound, protocol, host_port) {
            None => {
                return Ok(ClientDataRoute::Unmatched);
            },
            Some(s) => s,
        };
        let key = (host_port, client_port, protocol);
        let new_client = if !self.contains(key) {
            if !str_equal(d.content.get("sequence").unwrap().as_str(), "0") {
                return Ok(ClientDataRoute::NoClient);
            }
            Some(InboundClient::new(ip_version, settings, client_port))
        } else {
            None
        };
        self.set(key, now);
        Ok(ClientDataRoute::Forward { key, new_client })
    }

    /// Forgets the connections that are stale at time `now`, and returns each with the
    /// `close` datagram that ends it.
    pub fn cleanup(&mut self, now: u64) -> (res: Vec<(InboundKey, ControlDatagram)>)
        ensures
            final(self)@ == fresh_part(old(self)@, now),
            forall|i: int|
                0 <= i < res@.len() ==> {
                    let (k, close) = #[trigger] res@[i];
                    &&& old(self)@.contains_key(k)
                    &&& stale(now, old(self)@[k])
                    &&& has_shape(close, -1i32, "close"@, close_content(k))
                },
            forall|k: InboundKey|
                old(self)@.contains_key(k) && stale(now, old(self)@[k]) ==> exists|i: int|
                    0 <= i < res@.len() && (#[trigger] res@[i]).0 == k,
    {
        proof {
            use_type_invariant(&*self);
        }
        let ghost old_map = self@;
        let mut kept: Vec<(InboundKey, u64)> = Vec::new();
        let mut closed: Vec<(InboundKey, ControlDatagram)> = Vec::new();
        let mut i: usize = 0;
        while i < self.clients.len()
            invariant
                i <= self.clients@.len(),
                keys_distinct(self.clients@),
                old_map == map_of(self.clients@),
                keys_distinct(kept@),
                forall|j: int|
                    0 <= j < kept@.len() ==> exists|m: int|
                        0 <= m < i && #[trigger] kept@[j] == self.clients@[m],
                map_of(kept@) == fresh_part(map_of(self.clients@.take(i as int)), now),
                forall|j: int|
                    0 <= j < closed@.len() ==> {
                        let (k, close) = #[trigger] closed@[j];
                        &&& old_map.contains_key(k)
                        &&& stale(now, old_map[k])
                        &&& has_shape(close, -1i32, "close"@, close_content(k))
                    },
                forall|m: int|
                    0 <= m < i && stale(now, #[trigger] self.clients@[m].1) ==> exists|j: int|
                        0 <= j < closed@.len() && closed@[j].0 == self.clients@[m].0,
            decreases self.clients@.len() - i,
        {
            let (key, last) = self.clients[i];
            let ghost pre = self.clients@.take(i as int);
            assert(self.clients@.take(i + 1) =~= pre.push((key, last)));
            assert(pre.push((key, last)).drop_last() =~= pre);
            proof {
                lemma_map_of_entry(self.clients@, i as int);
                assert forall|k: int| 0 <= k < pre.len() implies pre[k].0 != key by {
                    assert(pre[k] == self.clients@[k]);
                }
                lemma_map_of_absent(pre, key);
            }
            if now.wrapping_sub(last) > 7200 {
                let mut content = Content::new();
                content.insert(owned("hostPort"), decimal_string(key.0 as u64));
                content.insert(owned("hostClientPort"), decimal_string(key.1 as u64));
                content.insert(owned("protocol"), owned(key.2.name()));
                let close = ControlDatagram { version: -1, kind: owned("close"), content };
                let ghost old_closed = closed@;
                closed.push((key, close));
                proof {
                    assert forall|m: int|
                        0 <= m < i + 1 && stale(now, #[trigger] self.clients@[m].1) implies exists|j: int|
                        0 <= j < closed@.len() && closed@[j].0 == self.clients@[m].0 by {
                        if m == i {
                            assert(closed@[closed@.len() - 1].0 == key);
                        } else {
                            let j = choose|j: int|
                                0 <= j < old_closed.len() && old_closed[j].0 == self.clients@[m].0;
                            assert(closed@[j] == old_closed[j]);
                        }
                    }
                }
                assert(map_of(kept@) =~= fresh_part(map_of(self.clients@.take(i + 1)), now));
            } else {
                proof {
                    if map_of(kept@).contains_key(key) {
                        assert(map_of(pre).contains_key(key));
                    }
                    lemma_map_of_push(kept@, key, last);
                }
                kept.push((key, last));
                assert(map_of(kept@) =~= fresh_part(map_of(self.clients@.take(i + 1)), now));
            }
            i = i + 1;
        }
        assert(self.clients@.take(i as int) =~= self.clients@);
        proof {
            assert forall|k: InboundKey|
                old_map.contains_key(k) && stale(now, old_map[k]) implies exists|j: int|
                0 <= j < closed@.len() && (#[trigger] closed@[j]).0 == k by {
                crate::content::lemma_map_of_present(self.clients@, k);
                let m = choose|m: int| 0 <= m < self.clients@.len() && self.clients@[m].0 == k;
                lemma_map_of_entry(self.clients@, m);
                assert(stale(now, self.clients@[m].1));
            }
        }
        self.clients = kept;
        closed
    }
}

/// The answer that an inbound forwarding sends for the settings `s` goes to the outbound
/// forwarding that `s` names: its key is `s`'s remote host port and `s`'s protocol.
pub proof fn law_server_data_outbound_key(
    d: ControlDatagram,
    id: Seq<char>,
    n: u32,
    s: ServerDataSettings,
    text: Seq<char>,
)
    requires
        has_shape(d, 1, "server_data"@, server_data_content(id, n, s, text)),
    ensures
        d.content@.contains_key("remoteHostPort"@) && d.content@.contains_key("protocol"@),
        spec_outbound_key(d) == Ok::<(u16, Protocol), RouteError>((s.remote_host_port, s.protocol)),
{
    lemma_server_data_fields(id, n, s, text);
}

} // verus!
