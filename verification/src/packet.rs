use vstd::prelude::*;

verus! {

/// MQTT packet identifier: a non-zero 16 bit number.
#[derive(Debug, Clone, Copy, PartialEq, Eq, Structural)]
pub struct Pid {
    value: u16,
}

impl View for Pid {
    type V = u16;

    closed spec fn view(&self) -> u16 {
        self.value
    }
}

impl Pid {
    #[verifier::type_invariant]
    closed spec fn inv(self) -> bool {
        self.value != 0
    }

    /// The identifier with the given value; `None` for 0.
    pub fn try_new(value: u16) -> (r: Option<Pid>)
        ensures
            r is Some <==> value != 0,
            r matches Some(p) ==> p@ == value,
    {
        if value == 0 {
            None
        } else {
            Some(Pid { value })
        }
    }

    pub(crate) fn from_nonzero(value: u16) -> (p: Pid)
        requires
            value != 0,
        ensures
            p@ == value,
    {
        Pid { value }
    }

    pub fn get(&self) -> (r: u16)
        ensures
            r == self@,
            r != 0,
    {
        proof { use_type_invariant(self); }
        self.value
    }
}

/// Delivery quality of service.
#[derive(Debug, Clone, Copy, PartialEq, Eq, Structural)]
pub enum QoS {
    /// QoS 0: no acknowledgement
    AtMostOnce,
    /// QoS 1: one acknowledgement
    AtLeastOnce,
    /// QoS 2: two acknowledgements
    ExactlyOnce,
}

/// A QoS together with the packet identifier that QoS 1 and 2 carry.
#[derive(Debug, Clone, Copy, PartialEq, Eq, Structural)]
pub enum QosPid {
    AtMostOnce,
    AtLeastOnce(Pid),
    ExactlyOnce(Pid),
}

impl QosPid {
    pub open spec fn spec_qos(self) -> QoS {
        match self {
            QosPid::AtMostOnce => QoS::AtMostOnce,
            QosPid::AtLeastOnce(_) => QoS::AtLeastOnce,
            QosPid::ExactlyOnce(_) => QoS::ExactlyOnce,
        }
    }

    pub open spec fn spec_pid(self) -> Option<Pid> {
        match self {
            QosPid::AtMostOnce => None,
            QosPid::AtLeastOnce(p) => Some(p),
            QosPid::ExactlyOnce(p) => Some(p),
        }
    }

    pub fn qos(&self) -> (r: QoS)
        ensures
            r == self.spec_qos(),
    {
        match self {
            QosPid::AtMostOnce => QoS::AtMostOnce,
            QosPid::AtLeastOnce(_) => QoS::AtLeastOnce,
            QosPid::ExactlyOnce(_) => QoS::ExactlyOnce,
        }
    }

    pub fn pid(&self) -> (r: Option<Pid>)
        ensures
            r == self.spec_pid(),
    {
        match self {
            QosPid::AtMostOnce => None,
            QosPid::AtLeastOnce(p) => Some(*p),
            QosPid::ExactlyOnce(p) => Some(*p),
        }
    }
}


/// A PUBLISH packet borrowing its topic and payload.
#[derive(Debug, Clone, Copy)]
pub struct Publish<'a> {
    pub dup: bool,
    pub qospid: QosPid,
    pub retain: bool,
    pub topic_name: &'a str,
    pub payload: &'a [u8],
}

/// The broker's answer to one topic of a SUBSCRIBE.
#[derive(Debug, Clone, Copy, PartialEq, Eq, Structural)]
pub enum SubscribeReturnCodes {
    /// Subscribed with the given maximum QoS
    Success(QoS),
    Failure,
}

/// A SUBACK packet: the answers to the topics of a SUBSCRIBE, in order.
#[derive(Debug, Clone)]
pub struct Suback {
    pub pid: Pid,
    pub return_codes: Vec<SubscribeReturnCodes>,
}

/// The broker's answer to a CONNECT.
#[derive(Debug, Clone, Copy, PartialEq, Eq, Structural)]
pub enum ConnectReturnCode {
    Accepted,
    RefusedProtocolVersion,
    RefusedIdentifierRejected,
    ServerUnavailable,
    BadUsernamePassword,
    NotAuthorized,
}

/// A packet received from the broker, borrowing from the receive buffer.
#[derive(Debug)]
pub enum InPacket<'a> {
    Connack { session_present: bool, code: ConnectReturnCode },
    Publish(Publish<'a>),
    Puback(Pid),
    Pubrec(Pid),
    Pubrel(Pid),
    Pubcomp(Pid),
    Suback(Suback),
    Unsuback(Pid),
    Pingresp,
    /// A packet a broker does not send to a client
    Unexpected,
}

} // verus!
