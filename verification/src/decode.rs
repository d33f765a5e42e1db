//! Reading packets from the receive buffer with the `mqttrs2` decoder: the
//! framing of a packet (its fixed header and remaining length), the inputs
//! on which the decoder stays inside its input, and the step that takes one
//! packet off the front of the receive buffer.
use vstd::prelude::*;
use crate::packet::{ConnectReturnCode, InPacket, Pid, Publish, QoS, QosPid, Suback, SubscribeReturnCodes};
use crate::stack_buffer::StackBuffer;
use crate::MqttError;
use crate::connection::check_incomplete_packet;

verus! {

#[verifier::external_type_specification]
#[verifier::external_body]
pub struct ExCodecPacket<'a>(mqttrs2::Packet<'a>);

/// A packet received from the broker, owning its topic and payload.
#[derive(Debug)]
pub enum ReceivedPacket {
    Connack { session_present: bool, code: ConnectReturnCode },
    Publish { dup: bool, qospid: QosPid, retain: bool, topic: String, payload: Vec<u8> },
    Puback(Pid),
    Pubrec(Pid),
    Pubrel(Pid),
    Pubcomp(Pid),
    Suback(Suback),
    Unsuback(Pid),
    Pingresp,
    /// A packet a broker does not send to a client (CONNECT, SUBSCRIBE,
    /// UNSUBSCRIBE, PINGREQ, DISCONNECT)
    Unexpected,
}

/// What a received packet holds, as plain values.
pub enum PacketView {
    Connack { session_present: bool, code: ConnectReturnCode },
    Publish { dup: bool, qospid: QosPid, retain: bool, topic: Seq<char>, payload: Seq<u8> },
    Puback(Pid),
    Pubrec(Pid),
    Pubrel(Pid),
    Pubcomp(Pid),
    Suback { pid: Pid, return_codes: Seq<SubscribeReturnCodes> },
    Unsuback(Pid),
    Pingresp,
    Unexpected,
}

impl View for ReceivedPacket {
    type V = PacketView;

    open spec fn view(&self) -> PacketView {
        match self {
            ReceivedPacket::Connack { session_present, code } => PacketView::Connack { session_present: *session_present, code: *code },
            ReceivedPacket::Publish { dup, qospid, retain, topic, payload } => PacketView::Publish {
                dup: *dup,
                qospid: *qospid,
                retain: *retain,
                topic: topic@,
                payload: payload@,
            },
            ReceivedPacket::Puback(p) => PacketView::Puback(*p),
            ReceivedPacket::Pubrec(p) => PacketView::Pubrec(*p),
            ReceivedPacket::Pubrel(p) => PacketView::Pubrel(*p),
            ReceivedPacket::Pubcomp(p) => PacketView::Pubcomp(*p),
            ReceivedPacket::Suback(s) => PacketView::Suback { pid: s.pid, return_codes: s.return_codes@ },
            ReceivedPacket::Unsuback(p) => PacketView::Unsuback(*p),
            ReceivedPacket::Pingresp => PacketView::Pingresp,
            ReceivedPacket::Unexpected => PacketView::Unexpected,
        }
    }
}

/// What the decoder makes of the front of a buffer.
pub enum DecodeOutcome {
    /// The codec refused the bytes
    Invalid,
    /// The buffer does not hold a whole packet yet
    Incomplete,
    /// A packet, and the number of bytes the decoder read for it
    Packet(nat, PacketView),
}

/// What `mqttrs2::decode_slice_with_len` gives for `buf`.
pub uninterp spec fn decoded(buf: Seq<u8>) -> DecodeOutcome;

/// The fixed header's remaining length, read from the front of a buffer.
#[derive(Debug, Clone, Copy, PartialEq, Eq, Structural)]
pub enum Frame {
    /// The buffer ends inside the remaining length
    Short,
    /// The remaining length goes on past four bytes
    TooLong,
    /// The fixed header's length and the remaining length
    Done(usize, usize),
}

/// The weight of the `pos`-th byte of the remaining length: 128 to the
/// power `pos`.
pub open spec fn length_weight(pos: nat) -> nat {
    if pos == 0 {
        1
    } else if pos == 1 {
        128
    } else if pos == 2 {
        16384
    } else if pos == 3 {
        2097152
    } else {
        268435456
    }
}

/// Reads the remaining length from byte `pos + 1` on, `acc` being the
/// value of the bytes before: seven bits a byte, lowest first, while the
/// top bit is set, at most four bytes.
pub open spec fn frame_from(b: Seq<u8>, pos: nat, acc: nat) -> Frame
    decreases 4 - pos,
{
    if pos >= 4 {
        Frame::TooLong
    } else if b.len() <= pos + 1 {
        Frame::Short
    } else {
        let byte = b[pos + 1int];
        let acc2 = acc + (byte % 128) as nat * length_weight(pos);
        if byte < 128 {
            Frame::Done((pos + 2) as usize, acc2 as usize)
        } else {
            frame_from(b, pos + 1, acc2)
        }
    }
}

/// The framing of the packet at the front of `b`.
pub open spec fn frame(b: Seq<u8>) -> Frame {
    frame_from(b, 0, 0)
}

/// The remaining length is read seven bits a byte, lowest first: a first
/// byte below 128 is the length itself after a header of two bytes; a first
/// byte of 128 or more continues into the next, worth 128 times as much; a
/// buffer of one byte holds no length yet.
pub proof fn lemma_frame_lengths(b: Seq<u8>)
    ensures
        b.len() < 2 ==> frame(b) == Frame::Short,
        b.len() >= 2 && b[1] < 128 ==> frame(b) == Frame::Done(2, b[1] as usize),
        b.len() >= 3 && b[1] >= 128 && b[2] < 128 ==> frame(b) == Frame::Done(3, (b[1] - 128 + 128 * b[2]) as usize),
        b.len() == 2 && b[1] >= 128 ==> frame(b) == Frame::Short,
{
    reveal_with_fuel(frame_from, 3);
}

/// `b` does not hold a whole packet: it ends inside the remaining length,
/// or before the end of the packet.
pub open spec fn frame_incomplete(b: Seq<u8>) -> bool {
    match frame(b) {
        Frame::Short => true,
        Frame::Done(h, r) => b.len() < h + r,
        Frame::TooLong => false,
    }
}

/// A fixed header byte the decoder takes: a packet type from 1 to 14 with
/// the flags that type must have, and a QoS below 3.
pub open spec fn header_valid(hd: u8) -> bool {
    let t = hd / 16;
    let flags = hd % 16;
    &&& 1 <= t <= 14
    &&& (t == 3 || (if t == 6 || t == 8 || t == 10 { flags == 2 } else { flags == 0 }))
    &&& (hd % 8) / 2 != 3
}

/// The big-endian 16 bit number at `o`.
pub open spec fn u16_at(b: Seq<u8>, o: int) -> int {
    b[o] * 256 + b[o + 1]
}

/// Where a length-prefixed string at `o` ends, or `None` where the buffer
/// ends before (the decoder reports those as errors).
pub open spec fn str_end(b: Seq<u8>, o: int) -> Option<int> {
    if o + 2 > b.len() {
        None
    } else if o + 2 + u16_at(b, o) > b.len() {
        None
    } else {
        Some(o + 2 + u16_at(b, o))
    }
}

/// The topics of a SUBSCRIBE from `o` to `end`: each string that ends
/// inside the buffer (see `str_end`) is followed by a QoS byte inside it.
pub open spec fn topics_safe(b: Seq<u8>, o: int, end: int) -> bool
    decreases b.len() - o,
{
    if o >= end {
        true
    } else if o + 2 > b.len() || o + 2 + u16_at(b, o) > b.len() {
        true
    } else {
        let o1 = o + 2 + u16_at(b, o);
        if o1 >= b.len() {
            false
        } else if b[o1] > 2 {
            true
        } else {
            topics_safe(b, o1 + 1, end)
        }
    }
}

/// The body of a whole packet with a valid header, of `r` bytes after a
/// header of `h` bytes, is read inside the buffer: a CONNECT has its four
/// bytes after the protocol name, a PUBLISH's topic and packet identifier
/// end inside the packet, a SUBSCRIBE's topics have their QoS bytes, and
/// the other packets with a body have its first two bytes.
pub open spec fn body_safe(b: Seq<u8>, h: int, r: int) -> bool {
    let hd = b[0];
    let t = hd / 16;
    let end = h + r;
    if t == 1 {
        match str_end(b, h) {
            None => true,
            Some(o1) => o1 + 4 <= b.len(),
        }
    } else if t == 3 {
        match str_end(b, h) {
            None => true,
            Some(o1) => if (hd % 8) / 2 == 0 {
                o1 <= end
            } else if o1 + 2 > b.len() {
                false
            } else if u16_at(b, o1) == 0 {
                true
            } else {
                o1 + 2 <= end
            },
        }
    } else if t == 12 || t == 13 || t == 14 {
        true
    } else if t == 8 {
        h + 2 <= b.len() && (u16_at(b, h) == 0 || topics_safe(b, h + 2, end))
    } else {
        h + 2 <= b.len()
    }
}

/// The decoder reads only inside `b`: where `b` holds a whole packet with a
/// valid header, its body is read inside the buffer (taking every string as
/// valid UTF-8; an invalid one only ends decoding earlier, with an error).
pub open spec fn decode_safe(b: Seq<u8>) -> bool {
    match frame(b) {
        Frame::Done(h, r) => (h + r <= b.len() && header_valid(b[0])) ==> body_safe(b, h as int, r as int),
        _ => true,
    }
}

/// Converts a packet of the codec to the library's, one variant for
/// another; the packets a broker does not send to a client become
/// `Unexpected`. What it gives is part of `decoded`.
#[verifier::external_body]
fn received_from_codec(p: &mqttrs2::Packet<'_>) -> ReceivedPacket {
    match p {
        mqttrs2::Packet::Connack(_) => connack_from_codec(p),
        mqttrs2::Packet::Publish(_) => publish_from_codec(p),
        mqttrs2::Packet::Puback(x) => ReceivedPacket::Puback(Pid::from_nonzero(x.get())),
        mqttrs2::Packet::Pubrec(x) => ReceivedPacket::Pubrec(Pid::from_nonzero(x.get())),
        mqttrs2::Packet::Pubrel(x) => ReceivedPacket::Pubrel(Pid::from_nonzero(x.get())),
        mqttrs2::Packet::Pubcomp(x) => ReceivedPacket::Pubcomp(Pid::from_nonzero(x.get())),
        mqttrs2::Packet::Suback(_) => suback_from_codec(p),
        mqttrs2::Packet::Unsuback(x) => ReceivedPacket::Unsuback(Pid::from_nonzero(x.get())),
        mqttrs2::Packet::Pingresp => ReceivedPacket::Pingresp,
        _ => ReceivedPacket::Unexpected,
    }
}

/// Converts a CONNACK of the codec to the library's, each code for one of
/// the library's. What it gives is part of `decoded`.
#[verifier::external_body]
fn connack_from_codec(p: &mqttrs2::Packet<'_>) -> ReceivedPacket {
    let c = match p { mqttrs2::Packet::Connack(c) => c, _ => return ReceivedPacket::Unexpected };
    let code = match c.code {
        mqttrs2::ConnectReturnCode::Accepted => ConnectReturnCode::Accepted,
        mqttrs2::ConnectReturnCode::RefusedProtocolVersion => ConnectReturnCode::RefusedProtocolVersion,
        mqttrs2::ConnectReturnCode::RefusedIdentifierRejected => ConnectReturnCode::RefusedIdentifierRejected,
        mqttrs2::ConnectReturnCode::ServerUnavailable => ConnectReturnCode::ServerUnavailable,
        mqttrs2::ConnectReturnCode::BadUsernamePassword => ConnectReturnCode::BadUsernamePassword,
        mqttrs2::ConnectReturnCode::NotAuthorized => ConnectReturnCode::NotAuthorized,
    };
    ReceivedPacket::Connack { session_present: c.session_present, code }
}

/// Converts a PUBLISH of the codec to the library's, copying its topic and
/// payload. What it gives is part of `decoded`.
#[verifier::external_body]
fn publish_from_codec(p: &mqttrs2::Packet<'_>) -> ReceivedPacket {
    let x = match p { mqttrs2::Packet::Publish(x) => x, _ => return ReceivedPacket::Unexpected };
    let qospid = match x.qospid {
        mqttrs2::QosPid::AtMostOnce => QosPid::AtMostOnce,
        mqttrs2::QosPid::AtLeastOnce(pid) => QosPid::AtLeastOnce(Pid::from_nonzero(pid.get())),
        mqttrs2::QosPid::ExactlyOnce(pid) => QosPid::ExactlyOnce(Pid::from_nonzero(pid.get())),
    };
    ReceivedPacket::Publish { dup: x.dup, qospid, retain: x.retain, topic: x.topic_name.to_string(), payload: x.payload.to_vec() }
}

/// Converts a SUBACK of the codec to the library's, each return code for
/// one of the library's. What it gives is part of `decoded`.
#[verifier::external_body]
fn suback_from_codec(p: &mqttrs2::Packet<'_>) -> ReceivedPacket {
    let s = match p { mqttrs2::Packet::Suback(s) => s, _ => return ReceivedPacket::Unexpected };
    let return_codes = s.return_codes.iter().map(|c| match c {
        mqttrs2::SubscribeReturnCodes::Success(mqttrs2::QoS::AtMostOnce) => SubscribeReturnCodes::Success(QoS::AtMostOnce),
        mqttrs2::SubscribeReturnCodes::Success(mqttrs2::QoS::AtLeastOnce) => SubscribeReturnCodes::Success(QoS::AtLeastOnce),
        mqttrs2::SubscribeReturnCodes::Success(mqttrs2::QoS::ExactlyOnce) => SubscribeReturnCodes::Success(QoS::ExactlyOnce),
        mqttrs2::SubscribeReturnCodes::Failure => SubscribeReturnCodes::Failure,
    }).collect();
    ReceivedPacket::Suback(Suback { pid: Pid::from_nonzero(s.pid.get()), return_codes })
}

/// `mqttrs2::decode_slice_with_len`: decodes the packet at the front of
/// `buf`. Which packet and how many bytes it read are named by `decoded`;
/// the source shows that it gives `None` exactly where `buf` does not hold
/// a whole packet, and that it reads no further than `buf` goes. Where
/// `decode_safe` fails the decoder indexes past `buf` and panics.
#[verifier::external_body]
fn decode_slice_with_len(buf: &[u8]) -> (r: Result<Option<(usize, ReceivedPacket)>, mqttrs2::Error>)
    requires
        decode_safe(buf@),
    ensures
        match r {
            Ok(Some((n, p))) => decoded(buf@) == DecodeOutcome::Packet(n as nat, p@) && 0 < n <= buf@.len(),
            Ok(None) => decoded(buf@) == DecodeOutcome::Incomplete,
            Err(_) => decoded(buf@) == DecodeOutcome::Invalid,
        },
        (r matches Ok(None)) <==> frame_incomplete(buf@),
{
    match mqttrs2::decode_slice_with_len(buf) {
        Ok(Some((n, p))) => Ok(Some((n, received_from_codec(&p)))),
        Ok(None) => Ok(None),
        Err(e) => Err(e),
    }
}

/// The framing of the packet at the front of `b`; see `frame`.
pub fn frame_of(b: &[u8]) -> (r: Frame)
    ensures
        r == frame(b@),
        r matches Frame::Done(h, _) ==> 2 <= h <= b@.len(),
{
    let mut pos: usize = 0;
    let mut acc: usize = 0;
    while pos < 4
        invariant
            pos <= 4,
            acc < length_weight(pos as nat),
            frame_from(b@, pos as nat, acc as nat) == frame(b@),
        decreases 4 - pos,
    {
        if b.len() <= pos + 1 {
            return Frame::Short;
        }
        let byte = b[pos + 1];
        let w: usize = if pos == 0 {
            1
        } else if pos == 1 {
            128
        } else if pos == 2 {
            16384
        } else {
            2097152
        };
        assert(w == length_weight(pos as nat));
        assert(length_weight((pos + 1) as nat) == 128 * w);
        let low = byte % 128;
        assert(low * w <= 127 * w) by (nonlinear_arith)
            requires
                low <= 127,
        ;
        acc = acc + (low as usize) * w;
        if byte < 128 {
            return Frame::Done(pos + 2, acc);
        }
        pos = pos + 1;
    }
    Frame::TooLong
}

/// Whether the decoder takes the fixed header byte `hd`; see `header_valid`.
pub fn header_valid_check(hd: u8) -> (r: bool)
    ensures
        r == header_valid(hd),
{
    let t = hd / 16;
    let flags = hd % 16;
    let flags_ok = if t == 3 {
        true
    } else if t == 6 || t == 8 || t == 10 {
        flags == 2
    } else {
        flags == 0
    };
    1 <= t && t <= 14 && flags_ok && (hd % 8) / 2 != 3
}

/// Where the length-prefixed string at `o` ends; see `str_end`.
fn str_end_of(b: &[u8], o: usize) -> (r: Option<usize>)
    requires
        o <= b@.len(),
    ensures
        r is None <==> str_end(b@, o as int) is None,
        r matches Some(e) ==> str_end(b@, o as int) == Some(e as int),
{
    if b.len() - o < 2 {
        return None;
    }
    let len = (b[o] as usize) * 256 + (b[o + 1] as usize);
    if b.len() - o - 2 < len {
        None
    } else {
        Some(o + 2 + len)
    }
}

/// Whether the topics of a SUBSCRIBE from `o` to `end` are read inside the
/// buffer; see `topics_safe`.
fn topics_safe_check(b: &[u8], start: usize, end: usize) -> (r: bool)
    requires
        start <= b@.len(),
    ensures
        r == topics_safe(b@, start as int, end as int),
{
    let mut o = start;
    while o < end
        invariant
            o <= b@.len(),
            topics_safe(b@, o as int, end as int) == topics_safe(b@, start as int, end as int),
        decreases b@.len() - o,
    {
        match str_end_of(b, o) {
            None => {
                return true;
            },
            Some(o1) => {
                if o1 >= b.len() {
                    return false;
                } else if b[o1] > 2 {
                    return true;
                }
                o = o1 + 1;
            },
        }
    }
    true
}

/// Whether the decoder reads only inside `b`; see `decode_safe`.
pub fn decode_safe_check(b: &[u8]) -> (r: bool)
    ensures
        r == decode_safe(b@),
{
    match frame_of(b) {
        Frame::Done(h, rl) => {
            if b.len() - h < rl || !header_valid_check(b[0]) {
                return true;
            }
            let hd = b[0];
            let t = hd / 16;
            let end = h + rl;
            if t == 1 {
                match str_end_of(b, h) {
                    None => true,
                    Some(o1) => b.len() - o1 >= 4,
                }
            } else if t == 3 {
                match str_end_of(b, h) {
                    None => true,
                    Some(o1) => if (hd % 8) / 2 == 0 {
                        o1 <= end
                    } else if b.len() - o1 < 2 {
                        false
                    } else if b[o1] == 0 && b[o1 + 1] == 0 {
                        true
                    } else {
                        o1 + 2 <= end
                    },
                }
            } else if t == 12 || t == 13 || t == 14 {
                true
            } else if t == 8 {
                b.len() - h >= 2 && ((b[h] == 0 && b[h + 1] == 0) || topics_safe_check(b, h + 2, end))
            } else {
                b.len() - h >= 2
            }
        },
        _ => true,
    }
}

/// What a packet read by the session holds, as plain values.
pub open spec fn in_packet_view(p: InPacket) -> PacketView {
    match p {
        InPacket::Connack { session_present, code } => PacketView::Connack { session_present, code },
        InPacket::Publish(x) => PacketView::Publish {
            dup: x.dup,
            qospid: x.qospid,
            retain: x.retain,
            topic: x.topic_name@,
            payload: x.payload@,
        },
        InPacket::Puback(pid) => PacketView::Puback(pid),
        InPacket::Pubrec(pid) => PacketView::Pubrec(pid),
        InPacket::Pubrel(pid) => PacketView::Pubrel(pid),
        InPacket::Pubcomp(pid) => PacketView::Pubcomp(pid),
        InPacket::Suback(x) => PacketView::Suback { pid: x.pid, return_codes: x.return_codes@ },
        InPacket::Unsuback(pid) => PacketView::Unsuback(pid),
        InPacket::Pingresp => PacketView::Pingresp,
        InPacket::Unexpected => PacketView::Unexpected,
    }
}

/// The views keep the kind of a packet and its packet identifier: an
/// acknowledgement is seen as the acknowledgement of the same name, for the
/// same identifier.
pub proof fn lemma_views_keep_kind(r: ReceivedPacket, p: InPacket)
    ensures
        r matches ReceivedPacket::Puback(x) ==> r@ == PacketView::Puback(x),
        r matches ReceivedPacket::Pubrec(x) ==> r@ == PacketView::Pubrec(x),
        r matches ReceivedPacket::Pubrel(x) ==> r@ == PacketView::Pubrel(x),
        r matches ReceivedPacket::Pubcomp(x) ==> r@ == PacketView::Pubcomp(x),
        r matches ReceivedPacket::Unsuback(x) ==> r@ == PacketView::Unsuback(x),
        p matches InPacket::Puback(x) ==> in_packet_view(p) == PacketView::Puback(x),
        p matches InPacket::Pubrec(x) ==> in_packet_view(p) == PacketView::Pubrec(x),
        p matches InPacket::Pubrel(x) ==> in_packet_view(p) == PacketView::Pubrel(x),
        p matches InPacket::Pubcomp(x) ==> in_packet_view(p) == PacketView::Pubcomp(x),
        p matches InPacket::Unsuback(x) ==> in_packet_view(p) == PacketView::Unsuback(x),
{
}

impl ReceivedPacket {
    /// The packet as the session reads it, borrowing its topic and payload.
    pub fn as_in_packet(&self) -> (r: InPacket<'_>)
        ensures
            in_packet_view(r) == self@,
            match *self {
                ReceivedPacket::Connack { session_present, code } =>
                    r matches InPacket::Connack { session_present: s, code: c } && s == session_present && c == code,
                ReceivedPacket::Publish { dup, qospid, retain, topic, payload } =>
                    r matches InPacket::Publish(p) && p.dup == dup && p.qospid == qospid && p.retain == retain
                        && p.topic_name@ == topic@ && p.payload@ == payload@,
                ReceivedPacket::Puback(pid) => r matches InPacket::Puback(q) && q == pid,
                ReceivedPacket::Pubrec(pid) => r matches InPacket::Pubrec(q) && q == pid,
                ReceivedPacket::Pubrel(pid) => r matches InPacket::Pubrel(q) && q == pid,
                ReceivedPacket::Pubcomp(pid) => r matches InPacket::Pubcomp(q) && q == pid,
                ReceivedPacket::Suback(s) => r matches InPacket::Suback(x) && x.pid == s.pid && x.return_codes@ == s.return_codes@,
                ReceivedPacket::Unsuback(pid) => r matches InPacket::Unsuback(q) && q == pid,
                ReceivedPacket::Pingresp => r matches InPacket::Pingresp,
                ReceivedPacket::Unexpected => r matches InPacket::Unexpected,
            },
    {
        match self {
            ReceivedPacket::Connack { session_present, code } => InPacket::Connack { session_present: *session_present, code: *code },
            ReceivedPacket::Publish { dup, qospid, retain, topic, payload } => InPacket::Publish(Publish {
                dup: *dup,
                qospid: *qospid,
                retain: *retain,
                topic_name: topic.as_str(),
                payload: payload.as_slice(),
            }),
            ReceivedPacket::Puback(pid) => InPacket::Puback(*pid),
            ReceivedPacket::Pubrec(pid) => InPacket::Pubrec(*pid),
            ReceivedPacket::Pubrel(pid) => InPacket::Pubrel(*pid),
            ReceivedPacket::Pubcomp(pid) => InPacket::Pubcomp(*pid),
            ReceivedPacket::Suback(x) => {
                let mut codes: Vec<SubscribeReturnCodes> = Vec::new();
                let mut i: usize = 0;
                while i < x.return_codes.len()
                    invariant
                        i <= x.return_codes@.len(),
                        codes@ == x.return_codes@.subrange(0, i as int),
                    decreases x.return_codes@.len() - i,
                {
                    codes.push(x.return_codes[i]);
                    i = i + 1;
                }
                proof { assert(x.return_codes@.subrange(0, i as int) =~= x.return_codes@); }
                InPacket::Suback(Suback { pid: x.pid, return_codes: codes })
            },
            ReceivedPacket::Unsuback(pid) => InPacket::Unsuback(*pid),
            ReceivedPacket::Pingresp => InPacket::Pingresp,
            ReceivedPacket::Unexpected => InPacket::Unexpected,
        }
    }
}

/// Takes the packet at the front of the receive buffer: where the readable
/// bytes hold a whole packet, it is decoded and the bytes the decoder read
/// are marked read; where they do not yet, `None` and nothing changes; where
/// the codec refuses them, `CodecError` and nothing changes.
pub fn read_packet<const N: usize>(buf: &mut StackBuffer<N>) -> (r: Result<Option<ReceivedPacket>, MqttError>)
    requires
        old(buf).wf(),
        decode_safe(old(buf).readable()),
    ensures
        final(buf).wf(),
        final(buf).bytes() == old(buf).bytes(),
        final(buf).write_pos() == old(buf).write_pos(),
        (r matches Ok(None)) <==> frame_incomplete(old(buf).readable()),
        match decoded(old(buf).readable()) {
            DecodeOutcome::Packet(n, p) => r matches Ok(Some(q)) && q@ == p
                && 0 < n && final(buf).read_pos() == old(buf).read_pos() + n,
            DecodeOutcome::Incomplete => r matches Ok(None) && final(buf).read_pos() == old(buf).read_pos(),
            DecodeOutcome::Invalid => r matches Err(MqttError::CodecError(_)) && final(buf).read_pos() == old(buf).read_pos(),
        },
{
    let decoded = {
        let data = buf.reaable_data();
        decode_slice_with_len(data)
    };
    match decoded {
        Ok(Some((n, p))) => {
            let res = buf.add_bytes_read(n);
            assert(res is Ok);
            Ok(Some(p))
        },
        Ok(None) => Ok(None),
        Err(e) => Err(MqttError::CodecError(e)),
    }
}

/// Takes the packet at the front of the receive buffer as `read_packet`
/// does; where no whole packet is there and the buffer is full, no packet
/// will ever fit it: `BufferTooSmall`.
pub fn try_read_packet<const N: usize>(buf: &mut StackBuffer<N>) -> (r: Result<Option<ReceivedPacket>, MqttError>)
    requires
        old(buf).wf(),
        decode_safe(old(buf).readable()),
    ensures
        final(buf).wf(),
        final(buf).bytes() == old(buf).bytes(),
        final(buf).write_pos() == old(buf).write_pos(),
        frame_incomplete(old(buf).readable()) ==> final(buf).read_pos() == old(buf).read_pos() && if old(buf).read_pos() == 0 && old(buf).write_pos() == N {
            r == Err::<Option<ReceivedPacket>, MqttError>(MqttError::BufferTooSmall)
        } else {
            r matches Ok(None)
        },
        match decoded(old(buf).readable()) {
            DecodeOutcome::Packet(n, p) => r matches Ok(Some(q)) && q@ == p
                && 0 < n && final(buf).read_pos() == old(buf).read_pos() + n,
            DecodeOutcome::Incomplete => final(buf).read_pos() == old(buf).read_pos(),
            DecodeOutcome::Invalid => r matches Err(MqttError::CodecError(_)) && final(buf).read_pos() == old(buf).read_pos(),
        },
{
    let full = buf.is_max_len();
    let res = read_packet(buf);
    match res {
        Ok(None) => {
            match check_incomplete_packet(full) {
                Ok(()) => Ok(None),
                Err(e) => Err(e),
            }
        },
        other => other,
    }
}

} // verus!
