//! Forwarding settings: protocol and ports.
use vstd::prelude::*;
use vstd::string::*;
use vstd::std_specs::cmp::PartialEqSpecImpl;
use crate::content::str_equal;
use crate::text::{decimal, push_decimal};

verus! {

/// Transport protocol of a forwarded port.
#[derive(Debug, Clone, Copy)]
pub enum Protocol {
    Tcp,
    Udp,
}

impl PartialEq for Protocol {
    fn eq(&self, other: &Self) -> (res: bool) {
        match (self, other) {
            (Protocol::Tcp, Protocol::Tcp) | (Protocol::Udp, Protocol::Udp) => true,
            _ => false,
        }
    }
}

impl PartialEqSpecImpl for Protocol {
    open spec fn obeys_eq_spec() -> bool {
        true
    }

    open spec fn eq_spec(&self, other: &Protocol) -> bool {
        *self == *other
    }
}

/// The lower-case name of a protocol, as it appears on the command line and in datagrams.
pub open spec fn protocol_text(p: Protocol) -> Seq<char> {
    match p {
        Protocol::Tcp => "tcp"@,
        Protocol::Udp => "udp"@,
    }
}

/// The protocol that a name denotes.
pub open spec fn spec_parse_protocol(s: Seq<char>) -> Option<Protocol> {
    if s == "tcp"@ {
        Some(Protocol::Tcp)
    } else if s == "udp"@ {
        Some(Protocol::Udp)
    } else {
        None
    }
}

impl Protocol {
    /// `"tcp"` or `"udp"`.
    pub fn name(&self) -> (res: &'static str)
        ensures
            res@ == protocol_text(*self),
    {
        match self {
            Protocol::Tcp => "tcp",
            Protocol::Udp => "udp",
        }
    }

    /// The protocol named `s` (`"tcp"` or `"udp"`).
    pub fn parse(s: &str) -> (res: Option<Protocol>)
        ensures
            res == spec_parse_protocol(s@),
    {
        if str_equal(s, "tcp") {
            Some(Protocol::Tcp)
        } else if str_equal(s, "udp") {
            Some(Protocol::Udp)
        } else {
            None
        }
    }
}

/// Naming a protocol and parsing the name gives the protocol back.
pub proof fn lemma_protocol_text_parses(p: Protocol)
    ensures
        spec_parse_protocol(protocol_text(p)) == Some(p),
{
    reveal_strlit("tcp");
    reveal_strlit("udp");
    assert("tcp"@[0] != "udp"@[0]);
}

/// A forwarding: a port on this host and the matching port on the remote host.
#[derive(Debug, Clone, Copy)]
pub struct PortSettings {
    pub protocol: Protocol,
    pub host_port: u16,
    pub remote_host_port: u16,
}

impl PartialEq for PortSettings {
    fn eq(&self, other: &Self) -> (res: bool) {
        if self.protocol != other.protocol {
            return false;
        }
        if self.host_port != other.host_port {
            return false;
        }
        if self.remote_host_port != other.remote_host_port {
            return false;
        }
        true
    }
}

impl PartialEqSpecImpl for PortSettings {
    open spec fn obeys_eq_spec() -> bool {
        true
    }

    open spec fn eq_spec(&self, other: &PortSettings) -> bool {
        *self == *other
    }
}

/// `host_port:remote_host_port/protocol`, as the settings are written on the command line.
pub open spec fn port_settings_text(s: PortSettings) -> Seq<char> {
    decimal(s.host_port as nat) + ":"@ + decimal(s.remote_host_port as nat) + "/"@ + protocol_text(
        s.protocol,
    )
}

impl PortSettings {
    /// The display form `host_port:remote_host_port/protocol`.
    pub fn to_display_string(&self) -> (res: String)
        ensures
            res@ == port_settings_text(*self),
    {
        let mut res = String::new();
        push_decimal(&mut res, self.host_port as u64);
        res.append(":");
        push_decimal(&mut res, self.remote_host_port as u64);
        res.append("/");
        res.append(self.protocol.name());
        res
    }
}

/// Settings of a local client of an outbound forwarding.
#[derive(Debug, Clone, Copy)]
pub struct ClientDataSettings {
    pub protocol: Protocol,
    pub host_port: u16,
    pub host_client_port: u16,
}

/// Settings of the remote client that a local inbound connection answers.
#[derive(Debug, Clone, Copy)]
pub struct ServerDataSettings {
    pub protocol: Protocol,
    pub remote_host_port: u16,
    pub remote_host_client_port: u16,
}

} // verus!
