//! The handshake that opens a tunnel: each peer sends `SYN` until it is acknowledged,
//! and acknowledges every datagram it receives.
use vstd::prelude::*;
use vstd::string::*;
use crate::content::str_equal;
use crate::control_datagram::{ack_content, has_shape, ControlDatagram};

verus! {

/// Handshake progress of one peer.
#[derive(Debug, Clone, Copy, PartialEq, Eq)]
pub struct Handshake {
    /// The peer acknowledged our `SYN`.
    pub syn_acknowledged: bool,
    /// We received the peer's `SYN`.
    pub syn_received: bool,
}

/// What the sending side of the handshake does next.
#[derive(Debug, Clone, Copy, PartialEq, Eq)]
pub enum SynStep {
    /// The handshake is complete: stop.
    Stop,
    /// Send `SYN`, then wait a second.
    SendSyn,
    /// Our `SYN` was acknowledged but the peer's has not arrived yet: wait a second.
    Wait,
}

/// Receiving `d` is defined: it has version 1, and an acknowledgement carries an `id`.
pub open spec fn handshake_readable(d: ControlDatagram) -> bool {
    &&& d.version == 1
    &&& d.kind@ == "ACK"@ ==> d.content@.contains_key("id"@)
}

/// The handshake state after receiving `d`.
pub open spec fn handshake_after(h: Handshake, d: ControlDatagram) -> Handshake {
    if d.kind@ == "ACK"@ {
        if d.content@["id"@] == "SYN"@ {
            Handshake { syn_acknowledged: true, ..h }
        } else {
            h
        }
    } else if d.kind@ == "SYN"@ {
        Handshake { syn_received: true, ..h }
    } else {
        h
    }
}

impl Handshake {
    /// Nothing sent or received yet.
    pub fn new() -> (res: Handshake)
        ensures
            !res.syn_acknowledged && !res.syn_received,
    {
        Handshake { syn_acknowledged: false, syn_received: false }
    }

    /// Both `SYN`s have been acknowledged or received.
    pub fn is_established(&self) -> (res: bool)
        ensures
            res == (self.syn_acknowledged && self.syn_received),
    {
        self.syn_acknowledged && self.syn_received
    }

    /// The next step of the sending side.
    pub fn syn_step(&self) -> (res: SynStep)
        ensures
            res == if self.syn_acknowledged && self.syn_received {
                SynStep::Stop
            } else if !self.syn_acknowledged {
                SynStep::SendSyn
            } else {
                SynStep::Wait
            },
    {
        if self.syn_acknowledged && self.syn_received {
            SynStep::Stop
        } else if !self.syn_acknowledged {
            SynStep::SendSyn
        } else {
            SynStep::Wait
        }
    }

    /// Whether receiving `d` is defined (`handshake_readable`).
    pub fn accepts(d: &ControlDatagram) -> (res: bool)
        ensures
            res == handshake_readable(*d),
    {
d.version == 1 && (!str_equal(d.kind.as_str(), "ACK") || d.content.contains_key("id"))
    }

    /// Takes a received datagram of version 1: an acknowledgement of `SYN` completes our side,
    /// a `SYN` completes the peer's side. Returns the acknowledgement to send back, for every
    /// datagram that is not itself an acknowledgement.
    pub fn on_datagram(&mut self, d: &ControlDatagram) -> (reply: Option<ControlDatagram>)
        requires
            handshake_readable(*d),
        ensures
            *final(self) == handshake_after(*old(self), *d),
            d.kind@ != "ACK"@ ==> reply is Some && has_shape(
                reply->0,
                1,
                "ACK"@,
                ack_content(*d),
            ),
            d.kind@ == "ACK"@ ==> reply is None,
    {
        let is_ack = str_equal(d.kind.as_str(), "ACK");
        let reply = if !is_ack {
            Some(ControlDatagram::ack(d))
        } else {
            None
        };
        if is_ack {
            let id = d.content.get("id").unwrap();
            if str_equal(id.as_str(), "SYN") {
                self.syn_acknowledged = true;
            }
        } else if str_equal(d.kind.as_str(), "SYN") {
            self.syn_received = true;
        }
        reply
    }
}

/// Handshake progress is never lost, and the handshake completes once the peer has
/// acknowledged our `SYN` and sent its own, in either order and whatever else arrives.
pub proof fn law_handshake_progress(h: Handshake, d: ControlDatagram)
    ensures
        h.syn_acknowledged ==> handshake_after(h, d).syn_acknowledged,
        h.syn_received ==> handshake_after(h, d).syn_received,
        d.kind@ == "SYN"@ ==> handshake_after(h, d).syn_received,
        d.kind@ == "ACK"@ && d.content@["id"@] == "SYN"@ ==> handshake_after(h, d).syn_acknowledged,
        h.syn_acknowledged && d.kind@ == "SYN"@ ==> {
            let a = handshake_after(h, d);
            a.syn_acknowledged && a.syn_received
        },
        h.syn_received && d.kind@ == "ACK"@ && d.content@["id"@] == "SYN"@ ==> {
            let a = handshake_after(h, d);
            a.syn_acknowledged && a.syn_received
        },
{
    reveal_strlit("ACK");
    reveal_strlit("SYN");
    assert("ACK"@[0] != "SYN"@[0]);
}

} // verus!
