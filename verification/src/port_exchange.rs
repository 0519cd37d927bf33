//! Exchanging forwarding settings once the tunnel is open: each peer announces its inbound
//! forwardings one by one until each is acknowledged, and matches the peer's announcements
//! against its own outbound forwardings.
use vstd::prelude::*;
use vstd::string::*;
use crate::content::str_equal;
use crate::control_datagram::{ack_content, has_shape, input_port_content, owned, ControlDatagram};
use crate::settings_models::{port_settings_text, PortSettings};
use crate::tunnel::{parse_remote_inbound_settings, remote_inbound_accepts, remote_inbound_readable,
    spec_remote_inbound_settings};

verus! {

/// How many idle polls (one second each) the receiver waits for missing outbound matches.
pub open spec fn idle_limit() -> nat {
    10
}

/// The message id under which the inbound forwarding `s` is announced.
pub open spec fn announcement_id(s: PortSettings) -> Seq<char> {
    "input_port_"@ + port_settings_text(s)
}

/// The outbound forwarding of ours that serves the peer's inbound forwarding `r`:
/// same protocol, with the two ports swapped.
pub open spec fn mirrored(r: PortSettings) -> PortSettings {
    PortSettings { protocol: r.protocol, host_port: r.remote_host_port, remote_host_port: r.host_port }
}

/// Receiving `d` in the exchange state `x` is defined: `d` has version 1, an acknowledgement
/// carries an `id` while an announcement awaits one, and an announcement has its fields.
pub open spec fn exchange_readable(x: PortExchange, d: ControlDatagram) -> bool {
    &&& d.version == 1
    &&& d.kind@ == "ACK"@ && x.acknowledged() < x.inbound().len() ==> d.content@.contains_key(
        "id"@,
    )
    &&& d.kind@ == "input_port"@ ==> remote_inbound_readable(d)
}

/// The exchange state of one peer.
pub struct PortExchange {
    inbound: Vec<PortSettings>,
    outbound: Vec<PortSettings>,
    current_index: usize,
    receiver_stopped: bool,
    outbound_matches: Vec<PortSettings>,
    idle_polls: u32,
}

impl PortExchange {
    /// Our inbound forwardings, announced in order.
    pub closed spec fn inbound(self) -> Seq<PortSettings> {
        self.inbound@
    }

    /// Our outbound forwardings.
    pub closed spec fn outbound(self) -> Seq<PortSettings> {
        self.outbound@
    }

    /// How many of our inbound forwardings the peer has acknowledged.
    pub closed spec fn acknowledged(self) -> nat {
        self.current_index as nat
    }

    /// The receiving side has finished.
    pub closed spec fn stopped(self) -> bool {
        self.receiver_stopped
    }

    /// Our outbound forwardings that the peer's announcements matched, in the order matched.
    pub closed spec fn matches(self) -> Seq<PortSettings> {
        self.outbound_matches@
    }

    /// Consecutive polls that found nothing to receive.
    pub closed spec fn idle(self) -> nat {
        self.idle_polls as nat
    }

    #[verifier::type_invariant]
    closed spec fn well_formed(self) -> bool {
        &&& self.current_index <= self.inbound@.len()
        &&& forall|i: int|
            0 <= i < self.outbound_matches@.len() ==> self.outbound@.contains(
                #[trigger] self.outbound_matches@[i],
            )
        &&& self.outbound_matches@.no_duplicates()
    }

    /// The state before anything is sent or received.
    pub fn new(inbound: Vec<PortSettings>, outbound: Vec<PortSettings>) -> (res: PortExchange)
        ensures
            res.inbound() == inbound@,
            res.outbound() == outbound@,
            res.acknowledged() == 0,
            !res.stopped(),
            res.matches() == Seq::<PortSettings>::empty(),
            res.idle() == 0,
    {
        let res = PortExchange {
            inbound,
            outbound,
            current_index: 0,
            receiver_stopped: false,
            outbound_matches: Vec::new(),
            idle_polls: 0,
        };
        assert(res.outbound_matches@ =~= Seq::<PortSettings>::empty());
        res
    }

    /// The announcement to send now: the first inbound forwarding not yet acknowledged,
    /// unless all are or the receiver has stopped.
    pub fn next_announcement(&self) -> (res: Option<ControlDatagram>)
        ensures
            match res {
                None => self.acknowledged() >= self.inbound().len() || self.stopped(),
                Some(d) => {
                    &&& self.acknowledged() < self.inbound().len() && !self.stopped()
                    &&& has_shape(
                        d,
                        1,
                        "input_port"@,
                        input_port_content(
                            announcement_id(self.inbound()[self.acknowledged() as int]),
                            self.inbound()[self.acknowledged() as int],
                        ),
                    )
                },
            },
    {
        if self.current_index >= self.inbound.len() || self.receiver_stopped {
            return None;
        }
        let settings = &self.inbound[self.current_index];
        let mut id = owned("input_port_");
        id.append(settings.to_display_string().as_str());
        Some(ControlDatagram::input_port(id.as_str(), settings))
    }

    /// The receiving side is done: it has stopped, or all our forwardings are acknowledged and
    /// either every outbound forwarding is matched or ten polls in a row found nothing.
    pub fn receiver_done(&self) -> (res: bool)
        ensures
            res == (self.stopped() || self.acknowledged() >= self.inbound().len() && (
            self.matches().len() >= self.outbound().len() || self.idle() >= idle_limit())),
    {
        self.receiver_stopped || self.current_index >= self.inbound.len() && (
        self.outbound_matches.len() >= self.outbound.len() || self.idle_polls >= 10)
    }

    /// A poll found nothing to receive.
    pub fn on_idle(&mut self)
        ensures
            final(self).idle() == if old(self).idle() < u32::MAX {
                old(self).idle() + 1
            } else {
                old(self).idle()
            },
            final(self).inbound() == old(self).inbound(),
            final(self).outbound() == old(self).outbound(),
            final(self).acknowledged() == old(self).acknowledged(),
            final(self).stopped() == old(self).stopped(),
            final(self).matches() == old(self).matches(),
    {
        proof {
            use_type_invariant(&*self);
        }
        self.idle_polls = self.idle_polls.saturating_add(1);
    }

    /// Something arrived that could not be read as a datagram: the idle polls start over.
    pub fn on_unreadable(&mut self)
        ensures
            final(self).idle() == 0,
            final(self).inbound() == old(self).inbound(),
            final(self).outbound() == old(self).outbound(),
            final(self).acknowledged() == old(self).acknowledged(),
            final(self).stopped() == old(self).stopped(),
            final(self).matches() == old(self).matches(),
    {
        proof {
            use_type_invariant(&*self);
        }
        self.idle_polls = 0;
    }

    /// The receiving side finished; the sending side stops announcing.
    pub fn stop_receiver(&mut self)
        ensures
            final(self).stopped(),
            final(self).idle() == old(self).idle(),
            final(self).inbound() == old(self).inbound(),
            final(self).outbound() == old(self).outbound(),
            final(self).acknowledged() == old(self).acknowledged(),
            final(self).matches() == old(self).matches(),
    {
        proof {
            use_type_invariant(&*self);
        }
        self.receiver_stopped = true;
    }

    /// Whether taking `d` is defined (`exchange_readable`).
    pub fn accepts(&self, d: &ControlDatagram) -> (res: bool)
        ensures
            res == exchange_readable(*self, *d),
    {
        if d.version != 1 {
            return false;
        }
        if str_equal(d.kind.as_str(), "ACK") && self.current_index < self.inbound.len()
            && !d.content.contains_key("id") {
            return false;
        }
        !str_equal(d.kind.as_str(), "input_port") || remote_inbound_accepts(d)
    }

    /// Takes a received datagram of version 1. An acknowledgement of the current announcement
    /// moves on to the next inbound forwarding; an announcement of the peer that one of our
    /// outbound forwardings mirrors adds that forwarding to the matches (once); any other
    /// datagram stops the receiving side. Returns the acknowledgement to send back, for every
    /// datagram that is not itself one.
    pub fn on_datagram(&mut self, d: &ControlDatagram) -> (reply: Option<ControlDatagram>)
        requires
            exchange_readable(*old(self), *d),
        ensures
            d.kind@ != "ACK"@ ==> reply is Some && has_shape(reply->0, 1, "ACK"@, ack_content(*d)),
            d.kind@ == "ACK"@ ==> reply is None,
            final(self).idle() == 0,
            final(self).matches().no_duplicates(),
            forall|i: int|
                0 <= i < final(self).matches().len() ==> final(self).outbound().contains(
                    #[trigger] final(self).matches()[i],
                ),
            final(self).inbound() == old(self).inbound(),
            final(self).outbound() == old(self).outbound(),
            final(self).stopped() == (old(self).stopped() || d.kind@ != "ACK"@ && d.kind@
                != "input_port"@),
            d.kind@ == "input_port"@ && spec_remote_inbound_settings(*d) is Ok ==> {
                let r = spec_remote_inbound_settings(*d)->Ok_0;
                let o = PortSettings {
                    protocol: r.protocol,
                    host_port: r.remote_host_port,
                    remote_host_port: r.host_port,
                };
                old(self).outbound().contains(o) ==> final(self).matches().contains(o)
            },
            final(self).acknowledged() == if d.kind@ == "ACK"@ && old(self).acknowledged() < old(
                self,
            ).inbound().len() && d.content@["id"@] == announcement_id(
                old(self).inbound()[old(self).acknowledged() as int],
            ) {
                old(self).acknowledged() + 1
            } else {
                old(self).acknowledged()
            },
            final(self).matches() == if d.kind@ != "ACK"@ && d.kind@ == "input_port"@
                && spec_remote_inbound_settings(*d) is Ok && old(self).outbound().contains(
                mirrored(spec_remote_inbound_settings(*d)->Ok_0),
            ) && !old(self).matches().contains(mirrored(spec_remote_inbound_settings(*d)->Ok_0)) {
                old(self).matches().push(mirrored(spec_remote_inbound_settings(*d)->Ok_0))
            } else {
                old(self).matches()
            },
    {
        proof {
            use_type_invariant(&*self);
        }
        self.idle_polls = 0;
        proof {
            reveal_strlit("ACK");
            reveal_strlit("input_port");
            assert("ACK"@[0] != "input_port"@[0]);
        }
        let is_ack = str_equal(d.kind.as_str(), "ACK");
        if is_ack {
            if self.current_index < self.inbound.len() {
                let settings = &self.inbound[self.current_index];
                let mut expected = owned("input_port_");
                expected.append(settings.to_display_string().as_str());
                let id = d.content.get("id").unwrap();
                if str_equal(id.as_str(), expected.as_str()) {
                    self.current_index = self.current_index + 1;
                }
            }
            return None;
        }
        let reply = ControlDatagram::ack(d);
        if !str_equal(d.kind.as_str(), "input_port") {
            self.receiver_stopped = true;
            return Some(reply);
        }
        {
            match parse_remote_inbound_settings(d) {
                Err(_) => {},
                Ok(remote) => {
                    let wanted = PortSettings {
                        protocol: remote.protocol,
                        host_port: remote.remote_host_port,
                        remote_host_port: remote.host_port,
                    };
                    let mut found = false;
                    let mut i: usize = 0;
                    while i < self.outbound.len()
                        invariant
                            i <= self.outbound@.len(),
                            found == exists|k: int| 0 <= k < i && self.outbound@[k] == wanted,
                        decreases self.outbound@.len() - i,
                    {
                        if self.outbound[i] == wanted {
                            found = true;
                        }
                        i = i + 1;
                    }
                    let mut already = false;
                    let mut j: usize = 0;
                    while j < self.outbound_matches.len()
                        invariant
                            j <= self.outbound_matches@.len(),
                            already == exists|k: int|
                                0 <= k < j && self.outbound_matches@[k] == wanted,
                        decreases self.outbound_matches@.len() - j,
                    {
                        if self.outbound_matches[j] == wanted {
                            already = true;
                        }
                        j = j + 1;
                    }
                    if found && !already {
                        let mut matches = Vec::new();
                        std::mem::swap(&mut matches, &mut self.outbound_matches);
                        matches.push(wanted);
                        proof {
                            let m = matches@;
                            assert forall|a: int, b: int|
                                0 <= a < m.len() && 0 <= b < m.len() && a != b implies m[a]
                                != m[b] by {
                                if b == m.len() - 1 {
                                    assert(m[a] == old(self).matches()[a]);
                                } else if a == m.len() - 1 {
                                    assert(m[b] == old(self).matches()[b]);
                                }
                            }
                        }
                        self.outbound_matches = matches;
                        assert(self.outbound_matches@[self.outbound_matches@.len() - 1] == wanted);
                    } else if already {
                        let ghost k = choose|k: int|
                            0 <= k < self.outbound_matches@.len() && self.outbound_matches@[k]
                                == wanted;
                        assert(self.outbound_matches@[k] == wanted);
                    }
                    proof {
                        if self.outbound@.contains(wanted) {
                            let k = choose|k: int|
                                0 <= k < self.outbound@.len() && self.outbound@[k] == wanted;
                            assert(found);
                        }
                    }
                },
            }
        }
        Some(reply)
    }

    /// Our outbound forwardings that the peer never announced a counterpart for.
    pub fn unmatched_outbound(&self) -> (res: Vec<PortSettings>)
        ensures
            res@ == self.outbound().filter(|o: PortSettings| !self.matches().contains(o)),
    {
        let mut res: Vec<PortSettings> = Vec::new();
        let mut i: usize = 0;
        while i < self.outbound.len()
            invariant
                i <= self.outbound@.len(),
                res@ == self.outbound@.take(i as int).filter(
                    |o: PortSettings| !self.outbound_matches@.contains(o),
                ),
            decreases self.outbound@.len() - i,
        {
            let o = self.outbound[i];
            let mut matched = false;
            let mut j: usize = 0;
            while j < self.outbound_matches.len()
                invariant
                    j <= self.outbound_matches@.len(),
                    matched == exists|k: int| 0 <= k < j && self.outbound_matches@[k] == o,
                decreases self.outbound_matches@.len() - j,
            {
                if self.outbound_matches[j] == o {
                    matched = true;
                }
                j = j + 1;
            }
            reveal_with_fuel(Seq::filter, 1);
            assert(self.outbound@.take(i + 1).drop_last() =~= self.outbound@.take(i as int));
            if !matched {
                res.push(o);
            }
            i = i + 1;
        }
        assert(self.outbound@.take(i as int) =~= self.outbound@);
        res
    }

    /// The outbound forwardings that the peer's announcements matched.
    pub fn outbound_matches(&self) -> (res: Vec<PortSettings>)
        ensures
            res@ == self.matches(),
    {
        self.outbound_matches.clone()
    }
}

/// An announcement of the peer's inbound forwarding `r` reads back as `r`, and it matches
/// exactly our outbound forwarding with `r`'s protocol and `r`'s two ports swapped.
pub proof fn law_announcement_matches(d: ControlDatagram, id: Seq<char>, r: PortSettings, o: PortSettings)
    requires
        has_shape(d, 1, "input_port"@, input_port_content(id, r)),
    ensures
        spec_remote_inbound_settings(d) == Ok::<PortSettings, Seq<char>>(r),
        mirrored(r) == o <==> (o.protocol == r.protocol && o.host_port == r.remote_host_port
            && o.remote_host_port == r.host_port),
{
    crate::tunnel::law_input_port_round_trip(d, id, r);
}

} // verus!
