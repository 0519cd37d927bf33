//! The forwardings of the desktop front end: reading the form that adds one, and the status
//! that each shows while it connects.
use vstd::prelude::*;
use vstd::string::*;
use crate::content::str_equal;
use crate::ip_version::IpVersion;
use crate::settings_models::Protocol;
use crate::subscription::{signed_decimal, SubscriptionPeer};
use crate::text::{is_unsigned_text, parse_u16, push_decimal, spec_parse_u16, unsigned_text_value};

verus! {

/// A forwarding chosen in the form.
#[derive(Debug, Clone, Copy)]
pub struct ForwardingChoice {
    pub ip_version: IpVersion,
    pub protocol: Protocol,
    pub local_port: u16,
    pub remote_port: u16,
}

/// Why a port field does not hold a port number, as `str::parse::<u16>` reports it
/// (`std::num::IntErrorKind`).
#[derive(Debug, Clone, Copy, PartialEq, Eq)]
pub enum PortError {
    /// The field is empty.
    Empty,
    /// The field holds something other than an optional `+` and decimal digits.
    InvalidDigit,
    /// The number is above 65535.
    PosOverflow,
}

/// Why the text of a port field is not a port number; `None` when it is one.
pub open spec fn port_error(s: Seq<char>) -> Option<PortError> {
    if spec_parse_u16(s) is Some {
        None
    } else if s.len() == 0 {
        Some(PortError::Empty)
    } else if unsigned_text_value(s) is Some {
        Some(PortError::PosOverflow)
    } else {
        Some(PortError::InvalidDigit)
    }
}

/// Why the text of a port field is not a port number; `None` when it is one.
pub fn read_port_error(s: &str) -> (res: Option<PortError>)
    ensures
        res == port_error(s@),
{
    if parse_u16(s).is_some() {
        None
    } else if s.unicode_len() == 0 {
        Some(PortError::Empty)
    } else if is_unsigned_text(s) {
        Some(PortError::PosOverflow)
    } else {
        Some(PortError::InvalidDigit)
    }
}

/// Why the form does not give a forwarding; the form stays open.
#[derive(Debug, Clone, Copy, PartialEq, Eq)]
pub enum FormError {
    /// The error of each of the two port fields that does not hold a port number.
    Ports { local: Option<PortError>, remote: Option<PortError> },
    /// No IP version is selected.
    NoIpVersion,
    /// The selected IP version is neither `IPv4` nor `IPv6`.
    UnknownIpVersion,
    /// No protocol is selected.
    NoProtocol,
    /// The selected protocol is neither `TCP` nor `UDP`.
    UnknownProtocol,
}

/// The IP version that an entry of the form's list names.
pub open spec fn ip_version_choice(t: Seq<char>) -> Option<IpVersion> {
    if t == "IPv4"@ {
        Some(IpVersion::Ipv4)
    } else if t == "IPv6"@ {
        Some(IpVersion::Ipv6)
    } else {
        None
    }
}

/// The protocol that an entry of the form's list names.
pub open spec fn protocol_choice(t: Seq<char>) -> Option<Protocol> {
    if t == "TCP"@ {
        Some(Protocol::Tcp)
    } else if t == "UDP"@ {
        Some(Protocol::Udp)
    } else {
        None
    }
}

/// The forwarding that the form gives: both ports are read first, then the IP version, then
/// the protocol.
pub open spec fn form_result(
    ip_version: Option<Seq<char>>,
    protocol: Option<Seq<char>>,
    local_port: Seq<char>,
    remote_port: Seq<char>,
) -> Result<ForwardingChoice, FormError> {
    match (spec_parse_u16(local_port), spec_parse_u16(remote_port)) {
        (Some(local), Some(remote)) => match ip_version {
            None => Err(FormError::NoIpVersion),
            Some(t) => match ip_version_choice(t) {
                None => Err(FormError::UnknownIpVersion),
                Some(v) => match protocol {
                    None => Err(FormError::NoProtocol),
                    Some(p) => match protocol_choice(p) {
                        None => Err(FormError::UnknownProtocol),
                        Some(q) => Ok(
                            ForwardingChoice {
                                ip_version: v,
                                protocol: q,
                                local_port: local,
                                remote_port: remote,
                            },
                        ),
                    },
                },
            },
        },
        (_, _) => Err(
            FormError::Ports { local: port_error(local_port), remote: port_error(remote_port) },
        ),
    }
}

/// The view of an optional text.
pub open spec fn text_option(t: Option<&str>) -> Option<Seq<char>> {
    match t {
        Some(s) => Some(s@),
        None => None,
    }
}

/// Reads the form: the selected IP version and protocol, and the two port fields.
pub fn read_forwarding_form(
    ip_version: Option<&str>,
    protocol: Option<&str>,
    local_port: &str,
    remote_port: &str,
) -> (res: Result<ForwardingChoice, FormError>)
    ensures
        res == form_result(text_option(ip_version), text_option(protocol), local_port@, remote_port@),
{
    let local = parse_u16(local_port);
    let remote = parse_u16(remote_port);
    let (local, remote) = match (local, remote) {
        (Some(l), Some(r)) => (l, r),
        (_, _) => {
            return Err(
                FormError::Ports {
                    local: read_port_error(local_port),
                    remote: read_port_error(remote_port),
                },
            );
        },
    };
    let v = match ip_version {
        None => {
            return Err(FormError::NoIpVersion);
        },
        Some(t) => if str_equal(t, "IPv4") {
            IpVersion::Ipv4
        } else if str_equal(t, "IPv6") {
            IpVersion::Ipv6
        } else {
            return Err(FormError::UnknownIpVersion);
        },
    };
    let q = match protocol {
        None => {
            return Err(FormError::NoProtocol);
        },
        Some(t) => if str_equal(t, "TCP") {
            Protocol::Tcp
        } else if str_equal(t, "UDP") {
            Protocol::Udp
        } else {
            return Err(FormError::UnknownProtocol);
        },
    };
    Ok(ForwardingChoice { ip_version: v, protocol: q, local_port: local, remote_port: remote })
}

/// What a forwarding shows while it connects.
#[derive(Debug, Clone, Copy, PartialEq, Eq)]
pub enum ForwardingStatus {
    /// Added, not started.
    New,
    /// Waiting for the subscription and the peer.
    Waiting,
    /// No peer could be had.
    Failed,
    /// Connected to the peer.
    Connected,
    /// The connection to the peer failed.
    Broken,
    /// The connection to the peer ended.
    Stopped,
}

/// What happens to a forwarding.
#[derive(Debug, Clone, Copy, PartialEq, Eq)]
pub enum ForwardingEvent {
    /// It starts.
    Started,
    /// The peer was found.
    PeersFound,
    /// Finding the peer failed.
    PeersFailed,
    /// The connection to the peer failed.
    ConnectionFailed,
    /// The connection to the peer ended.
    ConnectionEnded,
}

/// The status after `e`; an event that does not fit the status leaves it.
pub open spec fn status_after(s: ForwardingStatus, e: ForwardingEvent) -> ForwardingStatus {
    match (s, e) {
        (ForwardingStatus::New, ForwardingEvent::Started) => ForwardingStatus::Waiting,
        (ForwardingStatus::Waiting, ForwardingEvent::PeersFound) => ForwardingStatus::Connected,
        (ForwardingStatus::Waiting, ForwardingEvent::PeersFailed) => ForwardingStatus::Failed,
        (ForwardingStatus::Connected, ForwardingEvent::ConnectionFailed) => ForwardingStatus::Broken,
        (ForwardingStatus::Connected, ForwardingEvent::ConnectionEnded) => ForwardingStatus::Stopped,
        _ => s,
    }
}

/// The symbol shown for a status.
pub open spec fn status_symbol(s: ForwardingStatus) -> Seq<char> {
    match s {
        ForwardingStatus::New => "🆕"@,
        ForwardingStatus::Waiting => "⏳"@,
        ForwardingStatus::Failed => "❌"@,
        ForwardingStatus::Connected => "🔗"@,
        ForwardingStatus::Broken => "⛓️‍💥"@,
        ForwardingStatus::Stopped => "🛑"@,
    }
}

/// A status that nothing changes any more.
pub open spec fn is_final(s: ForwardingStatus) -> bool {
    s == ForwardingStatus::Failed || s == ForwardingStatus::Broken || s == ForwardingStatus::Stopped
}

/// How far along a status is.
pub open spec fn progress(s: ForwardingStatus) -> nat {
    match s {
        ForwardingStatus::New => 0,
        ForwardingStatus::Waiting => 1,
        ForwardingStatus::Connected => 2,
        _ => 3,
    }
}

impl ForwardingStatus {
    /// The status after `e`.
    pub fn after(self, e: ForwardingEvent) -> (res: ForwardingStatus)
        ensures
            res == status_after(self, e),
    {
        match (self, e) {
            (ForwardingStatus::New, ForwardingEvent::Started) => ForwardingStatus::Waiting,
            (ForwardingStatus::Waiting, ForwardingEvent::PeersFound) => ForwardingStatus::Connected,
            (ForwardingStatus::Waiting, ForwardingEvent::PeersFailed) => ForwardingStatus::Failed,
            (ForwardingStatus::Connected, ForwardingEvent::ConnectionFailed) => ForwardingStatus::Broken,
            (ForwardingStatus::Connected, ForwardingEvent::ConnectionEnded) => ForwardingStatus::Stopped,
            _ => self,
        }
    }

    /// The symbol shown for the status.
    pub fn symbol(&self) -> (res: &'static str)
        ensures
            res@ == status_symbol(*self),
    {
        match self {
            ForwardingStatus::New => "🆕",
            ForwardingStatus::Waiting => "⏳",
            ForwardingStatus::Failed => "❌",
            ForwardingStatus::Connected => "🔗",
            ForwardingStatus::Broken => "⛓️‍💥",
            ForwardingStatus::Stopped => "🛑",
        }
    }
}

/// A forwarding's status only moves forward, once it is final no event changes it, and it is
/// connected only after waiting for its peer.
pub proof fn law_status_moves_forward(s: ForwardingStatus, e: ForwardingEvent)
    ensures
        progress(status_after(s, e)) >= progress(s),
        is_final(s) ==> status_after(s, e) == s,
        status_after(s, e) == ForwardingStatus::Connected ==> s == ForwardingStatus::Waiting || s
            == ForwardingStatus::Connected,
{
}

/// The text shown for the peer that a forwarding connects to: `peer = address:port`.
pub open spec fn peer_label(peer: SubscriptionPeer) -> Seq<char> {
    "peer = "@ + peer.address@ + ":"@ + signed_decimal(peer.port)
}

/// The text shown for the peer that a forwarding connects to.
pub fn peer_label_text(peer: &SubscriptionPeer) -> (res: String)
    ensures
        res@ == peer_label(*peer),
{
    let mut res = String::new();
    res.append("peer = ");
    res.append(peer.address.as_str());
    res.append(":");
    if peer.port < 0 {
        res.append("-");
        push_decimal(&mut res, (0 - (peer.port as i64)) as u64);
    } else {
        push_decimal(&mut res, peer.port as u64);
    }
    res
}

} // verus!
