//! Delivering forwarded data: what the writing side of a forwarding does with each data
//! datagram it receives. Data of a TCP forwarding is written in sequence order; UDP data is
//! written as it comes.
use vstd::prelude::*;
use vstd::string::*;
use crate::base64_codec::{base64_decode, base64_decoding};
use crate::content::str_equal;
use crate::control_datagram::ControlDatagram;
use crate::text::{parse_u16, parse_u32, spec_parse_u16, spec_parse_u32};

verus! {

/// Why a data datagram could not be delivered; each ends the forwarding's writer.
#[derive(Debug, Clone)]
pub enum ReceiveError {
    /// The datagram has no `sequence` field.
    MissingSequence,
    /// The `sequence` field is not a `u32`.
    InvalidSequence,
    /// The datagram has no `remoteHostClientPort` field.
    MissingClientPort,
    /// The `remoteHostClientPort` field is not a `u16`.
    InvalidClientPort,
    /// The `base64` field is not valid base64; the message of the decoder.
    InvalidBase64(String),
}

/// What the writer does with a received data datagram.
#[derive(Debug)]
pub enum WriteStep {
    /// The forwarding is closed: stop writing.
    Close,
    /// Not for this writer, or not the next in sequence: ignore it.
    Skip,
    /// Write these bytes to the local socket.
    Write(Vec<u8>),
    /// The datagram is malformed: stop writing.
    Fail(ReceiveError),
}

/// The outcome of receiving a data datagram, over plain values.
pub enum Delivery {
    Close,
    Skip,
    Write(Seq<u8>),
    MissingSequence,
    InvalidSequence,
    MissingClientPort,
    InvalidClientPort,
    InvalidBase64,
}

/// The outcome that a step stands for.
pub open spec fn step_view(s: WriteStep) -> Delivery {
    match s {
        WriteStep::Close => Delivery::Close,
        WriteStep::Skip => Delivery::Skip,
        WriteStep::Write(b) => Delivery::Write(b@),
        WriteStep::Fail(ReceiveError::MissingSequence) => Delivery::MissingSequence,
        WriteStep::Fail(ReceiveError::InvalidSequence) => Delivery::InvalidSequence,
        WriteStep::Fail(ReceiveError::MissingClientPort) => Delivery::MissingClientPort,
        WriteStep::Fail(ReceiveError::InvalidClientPort) => Delivery::InvalidClientPort,
        WriteStep::Fail(ReceiveError::InvalidBase64(_)) => Delivery::InvalidBase64,
    }
}

/// The data of a datagram: its `base64` field decoded.
pub open spec fn decoded_data(d: ControlDatagram) -> Delivery {
    match base64_decoding(d.content@["base64"@]) {
        None => Delivery::InvalidBase64,
        Some(b) => Delivery::Write(b),
    }
}

/// Delivery in sequence order: only the datagram numbered `next` is written.
pub open spec fn sequenced_delivery(next: u32, d: ControlDatagram) -> Delivery {
    if !d.content@.contains_key("sequence"@) {
        Delivery::MissingSequence
    } else {
        match spec_parse_u32(d.content@["sequence"@]) {
            None => Delivery::InvalidSequence,
            Some(s) => if s != next {
                Delivery::Skip
            } else {
                decoded_data(d)
            },
        }
    }
}

/// The writer of the local connection of an inbound forwarding over TCP: a `close` datagram
/// ends it, data is written in sequence order.
pub open spec fn inbound_tcp_delivery(next: u32, d: ControlDatagram) -> Delivery {
    if d.kind@ == "close"@ {
        Delivery::Close
    } else {
        sequenced_delivery(next, d)
    }
}

/// The writer of a local client of an outbound forwarding over TCP: only data for the client
/// on port `port` is taken, in sequence order.
pub open spec fn outbound_tcp_delivery(port: u16, next: u32, d: ControlDatagram) -> Delivery {
    if !d.content@.contains_key("remoteHostClientPort"@) {
        Delivery::MissingClientPort
    } else {
        match spec_parse_u16(d.content@["remoteHostClientPort"@]) {
            None => Delivery::InvalidClientPort,
            Some(p) => if p != port {
                Delivery::Skip
            } else {
                sequenced_delivery(next, d)
            },
        }
    }
}

/// The writer of the local connection of an inbound forwarding over UDP: a `close` datagram
/// ends it, data is written as it comes.
pub open spec fn inbound_udp_delivery(d: ControlDatagram) -> Delivery {
    if d.kind@ == "close"@ {
        Delivery::Close
    } else {
        decoded_data(d)
    }
}

/// Delivering in sequence order reads the `base64` field only of the datagram it writes.
pub open spec fn sequenced_readable(next: u32, d: ControlDatagram) -> bool {
    d.content@.contains_key("sequence"@) && spec_parse_u32(d.content@["sequence"@]) == Some(next)
        ==> d.content@.contains_key("base64"@)
}

/// The sequence number after `n`, wrapping around.
pub open spec fn next_after(n: u32) -> u32 {
    if n == u32::MAX {
        0
    } else {
        (n + 1) as u32
    }
}

/// Decodes the `base64` field of `d`.
fn decode_data(d: &ControlDatagram) -> (res: WriteStep)
    requires
        d.content@.contains_key("base64"@),
    ensures
        step_view(res) == decoded_data(*d),
{
    match base64_decode(d.content.get("base64").unwrap().as_str()) {
        Ok(bytes) => WriteStep::Write(bytes),
        Err(message) => WriteStep::Fail(ReceiveError::InvalidBase64(message)),
    }
}

/// Delivery in sequence order.
fn sequenced_step(next: u32, d: &ControlDatagram) -> (res: WriteStep)
    requires
        sequenced_readable(next, *d),
    ensures
        step_view(res) == sequenced_delivery(next, *d),
{
    let sequence = match d.content.get("sequence") {
        None => {
            return WriteStep::Fail(ReceiveError::MissingSequence);
        },
        Some(s) => s,
    };
    match parse_u32(sequence.as_str()) {
        None => WriteStep::Fail(ReceiveError::InvalidSequence),
        Some(s) => if s != next {
            WriteStep::Skip
        } else {
            decode_data(d)
        },
    }
}

/// Whether delivering `d` in sequence order from `next` reads only fields it has.
fn sequenced_accepts(next: u32, d: &ControlDatagram) -> (res: bool)
    ensures
        res == sequenced_readable(next, *d),
{
    match d.content.get("sequence") {
        None => true,
        Some(s) => match parse_u32(s.as_str()) {
            Some(n) => n != next || d.content.contains_key("base64"),
            None => true,
        },
    }
}

/// The writer of one forwarded connection, with the sequence number it expects next.
#[derive(Debug, Clone, Copy, PartialEq, Eq)]
pub struct SequencedWriter {
    pub next_sequence: u32,
}

impl SequencedWriter {
    /// A writer that expects sequence number 0.
    pub fn new() -> (res: SequencedWriter)
        ensures
            res.next_sequence == 0,
    {
        SequencedWriter { next_sequence: 0 }
    }

    /// Whether taking `d` for an inbound TCP forwarding reads only fields it has.
    pub fn accepts_inbound(&self, d: &ControlDatagram) -> (res: bool)
        ensures
            res == (d.kind@ != "close"@ ==> sequenced_readable(self.next_sequence, *d)),
    {
        str_equal(d.kind.as_str(), "close") || sequenced_accepts(self.next_sequence, d)
    }

    /// Whether taking `d` for the local client on port `local_client_port` of an outbound TCP
    /// forwarding reads only fields it has.
    pub fn accepts_outbound(&self, local_client_port: u16, d: &ControlDatagram) -> (res: bool)
        ensures
            res == (d.content@.contains_key("remoteHostClientPort"@) && spec_parse_u16(
                d.content@["remoteHostClientPort"@],
            ) == Some(local_client_port) ==> sequenced_readable(self.next_sequence, *d)),
    {
        match d.content.get("remoteHostClientPort") {
            None => true,
            Some(p) => match parse_u16(p.as_str()) {
                Some(port) => port != local_client_port || sequenced_accepts(self.next_sequence, d),
                None => true,
            },
        }
    }

    /// Takes a datagram for the local connection of an inbound TCP forwarding; after a
    /// write, the next sequence number is expected.
    pub fn on_inbound_tcp_datagram(&mut self, d: &ControlDatagram) -> (res: WriteStep)
        requires
            d.kind@ != "close"@ ==> sequenced_readable(old(self).next_sequence, *d),
        ensures
            step_view(res) == inbound_tcp_delivery(old(self).next_sequence, *d),
            final(self).next_sequence == if res is Write {
                next_after(old(self).next_sequence)
            } else {
                old(self).next_sequence
            },
    {
        let res = if str_equal(d.kind.as_str(), "close") {
            WriteStep::Close
        } else {
            sequenced_step(self.next_sequence, d)
        };
        if let WriteStep::Write(_) = &res {
            self.next_sequence = self.next_sequence.wrapping_add(1);
        }
        res
    }

    /// Takes a datagram for the local client on port `local_client_port` of an outbound TCP
    /// forwarding; after a write, the next sequence number is expected.
    pub fn on_outbound_tcp_datagram(&mut self, local_client_port: u16, d: &ControlDatagram) -> (res:
        WriteStep)
        requires
            d.content@.contains_key("remoteHostClientPort"@) && spec_parse_u16(
                d.content@["remoteHostClientPort"@],
            ) == Some(local_client_port) ==> sequenced_readable(old(self).next_sequence, *d),
        ensures
            step_view(res) == outbound_tcp_delivery(
                local_client_port,
                old(self).next_sequence,
                *d,
            ),
            final(self).next_sequence == if res is Write {
                next_after(old(self).next_sequence)
            } else {
                old(self).next_sequence
            },
    {
        let res = match d.content.get("remoteHostClientPort") {
            None => WriteStep::Fail(ReceiveError::MissingClientPort),
            Some(p) => match parse_u16(p.as_str()) {
                None => WriteStep::Fail(ReceiveError::InvalidClientPort),
                Some(port) => if port != local_client_port {
                    WriteStep::Skip
                } else {
                    sequenced_step(self.next_sequence, d)
                },
            },
        };
        if let WriteStep::Write(_) = &res {
            self.next_sequence = self.next_sequence.wrapping_add(1);
        }
        res
    }
}

/// Whether taking `d` for an inbound UDP forwarding reads only fields it has.
pub fn inbound_udp_accepts(d: &ControlDatagram) -> (res: bool)
    ensures
        res == (d.kind@ != "close"@ ==> d.content@.contains_key("base64"@)),
{
    str_equal(d.kind.as_str(), "close") || d.content.contains_key("base64")
}

/// Takes a datagram for the local connection of an inbound UDP forwarding: order does not
/// matter, data is written as it comes.
pub fn inbound_udp_step(d: &ControlDatagram) -> (res: WriteStep)
    requires
        d.kind@ != "close"@ ==> d.content@.contains_key("base64"@),
    ensures
        step_view(res) == inbound_udp_delivery(*d),
{
    if str_equal(d.kind.as_str(), "close") {
        WriteStep::Close
    } else {
        decode_data(d)
    }
}

} // verus!
