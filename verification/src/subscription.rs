//! Answers of the rendezvous server, and the addresses of the peers it reports.
use vstd::prelude::*;
use vstd::string::*;
use crate::control_datagram::owned;
use crate::text::{decimal, occurs_in, push_decimal, text_contains};

verus! {

/// The answer to a subscription request.
#[derive(Debug, Clone)]
pub struct SubscriptionResponse {
    pub value: SubscriptionResponseValue,
}

/// The address the server saw and the id of the new subscription.
#[derive(Debug, Clone)]
pub struct SubscriptionResponseValue {
    pub source_address: String,
    pub source_port: i32,
    pub subscription_id: String,
}

/// The answer to a request for the peers of a subscription.
#[derive(Debug, Clone)]
pub struct SubscriptionViewResponse {
    pub value: SubscriptionViewResponseValue,
}

/// The peers of a subscription.
#[derive(Debug, Clone)]
pub struct SubscriptionViewResponseValue {
    pub peers: Vec<SubscriptionPeer>,
}

/// A peer as the server saw it.
#[derive(Debug, Clone)]
pub struct SubscriptionPeer {
    pub address: String,
    pub port: i32,
}

/// The decimal text of an `i32`.
pub open spec fn signed_decimal(n: i32) -> Seq<char> {
    if n < 0 {
        "-"@ + decimal((-(n as int)) as nat)
    } else {
        decimal(n as nat)
    }
}

/// The socket address text of a peer: `address:port` for an IPv4 address (one with a `.`),
/// `[address]:port` otherwise.
pub open spec fn peer_address_text(peer: SubscriptionPeer) -> Seq<char> {
    if occurs_in("."@, peer.address@) {
        peer.address@ + ":"@ + signed_decimal(peer.port)
    } else {
        "["@ + peer.address@ + "]:"@ + signed_decimal(peer.port)
    }
}

impl SubscriptionPeer {
    /// The socket address of the peer, as text to parse.
    pub fn socket_address_text(&self) -> (res: String)
        ensures
            res@ == peer_address_text(*self),
    {
        let mut res = String::new();
        let is_v4 = text_contains(self.address.as_str(), ".");
        if is_v4 {
            res.append(self.address.as_str());
            res.append(":");
        } else {
            res.append("[");
            res.append(self.address.as_str());
            res.append("]:");
        }
        if self.port < 0 {
            res.append("-");
            push_decimal(&mut res, (0 - (self.port as i64)) as u64);
        } else {
            push_decimal(&mut res, self.port as u64);
        }
        res
    }
}

/// What a poll of the subscription's peers tells the waiting peer.
#[derive(Debug, Clone, Copy, PartialEq, Eq)]
pub enum PeerPoll {
    /// No peers: the subscription expired.
    Expired,
    /// Both peers are there: connect the first to the second.
    Connect,
    /// Keep waiting.
    Wait,
}

/// Decides on the peers that a poll returned.
pub fn poll_peers(response: &SubscriptionViewResponse) -> (res: PeerPoll)
    ensures
        res == if response.value.peers@.len() == 0 {
            PeerPoll::Expired
        } else if response.value.peers@.len() == 2 {
            PeerPoll::Connect
        } else {
            PeerPoll::Wait
        },
{
    let n = response.value.peers.len();
    if n == 0 {
        PeerPoll::Expired
    } else if n == 2 {
        PeerPoll::Connect
    } else {
        PeerPoll::Wait
    }
}

/// A copy of a peer.
fn copy_peer(peer: &SubscriptionPeer) -> (res: SubscriptionPeer)
    ensures
        res.address@ == peer.address@,
        res.port == peer.port,
{
    SubscriptionPeer { address: peer.address.clone(), port: peer.port }
}

/// The peers to connect after joining a subscription: this peer, the second, and the one
/// that it joined, the first; `None` when fewer than two peers are there.
pub fn joined_peers(response: &SubscriptionViewResponse) -> (res: Option<
    (SubscriptionPeer, SubscriptionPeer),
>)
    ensures
        match res {
            Some((source, dest)) => {
                let peers = response.value.peers@;
                &&& peers.len() >= 2
                &&& source.address@ == peers[1].address@ && source.port == peers[1].port
                &&& dest.address@ == peers[0].address@ && dest.port == peers[0].port
            },
            None => response.value.peers@.len() < 2,
        },
{
    let peers = &response.value.peers;
    if peers.len() < 2 {
        None
    } else {
        Some((copy_peer(&peers[1]), copy_peer(&peers[0])))
    }
}

} // verus!
