//! The SOCKS5 side of the forwarder: the request that opens a tunnel
//! through an upstream proxy, the parsing of its reply, and the client
//! exchange with the upstream as a state machine that the connection task
//! drives with the bytes it writes and reads.

use vstd::prelude::*;
use vstd::utf8::encode_utf8;

verus! {

/// The target of a CONNECT request: an IP literal, as `str::parse::<IpAddr>`
/// reads the host, or a domain name.
pub enum TargetAddr {
    Ipv4([u8; 4]),
    Ipv6([u8; 16]),
    Domain(String),
}

/// Why an exchange with an upstream SOCKS5 proxy failed.
#[derive(Debug, Clone, Copy, PartialEq, Eq, Structural)]
pub enum Socks5Error {
    /// The target domain has more than 255 bytes.
    DomainTooLong,
    /// The upstream did not accept "no authentication"; its two reply bytes.
    NoAuthRejected(u8, u8),
    /// The connect reply does not start with version 5.
    BadReplyVersion(u8),
    /// The upstream answered the connect request with this failure code.
    ConnectFailed(u8),
    /// The connect reply names an address type other than 1, 3 or 4.
    BadAddressType(u8),
    /// An event came that the exchange does not expect at this point.
    OutOfOrder,
}

/// The greeting: version 5, one method, "no authentication".
pub open spec fn greeting() -> Seq<u8> {
    seq![5u8, 1u8, 0u8]
}

/// The method reply that accepts "no authentication".
pub open spec fn no_auth_accepted() -> Seq<u8> {
    seq![5u8, 0u8]
}

/// The port in network byte order.
pub open spec fn port_bytes(port: u16) -> Seq<u8> {
    seq![(port / 256) as u8, (port % 256) as u8]
}

/// The CONNECT request for `target` and `port`: an IPv4 address as address
/// type 1, an IPv6 address as type 4, a domain as type 3 with its UTF-8
/// length, which must fit in one byte.
pub open spec fn connect_request(target: TargetAddr, port: u16) -> Option<Seq<u8>> {
    match target {
        TargetAddr::Ipv4(o) => Some(seq![5u8, 1u8, 0u8, 1u8] + o@ + port_bytes(port)),
        TargetAddr::Ipv6(o) => Some(seq![5u8, 1u8, 0u8, 4u8] + o@ + port_bytes(port)),
        TargetAddr::Domain(d) => {
            let b = encode_utf8(d@);
            if b.len() > 255 {
                None
            } else {
                Some(seq![5u8, 1u8, 0u8, 3u8, b.len() as u8] + b + port_bytes(port))
            }
        },
    }
}

fn push_all(v: &mut Vec<u8>, b: &[u8])
    ensures
        final(v)@ == old(v)@ + b@,
{
    let mut i: usize = 0;
    while i < b.len()
        invariant
            i <= b@.len(),
            v@ == old(v)@ + b@.take(i as int),
        decreases b@.len() - i,
    {
        v.push(b[i]);
        proof {
            assert(b@.take(i + 1) == b@.take(i as int).push(b@[i as int]));
        }
        i = i + 1;
    }
    proof {
        assert(b@.take(i as int) =~= b@);
    }
}

/// The greeting bytes.
pub fn greeting_bytes() -> (v: Vec<u8>)
    ensures
        v@ == greeting(),
{
    let v = vec![5u8, 1u8, 0u8];
    proof {
        assert(v@ =~= greeting());
    }
    v
}

/// Builds the CONNECT request for `target` and `target_port`.
pub fn build_socks5_connect_request(target: &TargetAddr, target_port: u16) -> (r: Result<
    Vec<u8>,
    Socks5Error,
>)
    ensures
        match r {
            Ok(v) => connect_request(*target, target_port) == Some(v@),
            Err(e) => connect_request(*target, target_port) is None && e
                == Socks5Error::DomainTooLong,
        },
{
    let mut request: Vec<u8> = vec![5u8, 1u8, 0u8];
    match target {
        TargetAddr::Ipv4(octets) => {
            request.push(1u8);
            push_all(&mut request, octets.as_slice());
        },
        TargetAddr::Ipv6(octets) => {
            request.push(4u8);
            push_all(&mut request, octets.as_slice());
        },
        TargetAddr::Domain(name) => {
            let host = name.as_str().as_bytes();
            if host.len() > 255 {
                return Err(Socks5Error::DomainTooLong);
            }
            request.push(3u8);
            request.push(host.len() as u8);
            push_all(&mut request, host);
        },
    }
    let ghost head = request@;
    request.push((target_port / 256) as u8);
    request.push((target_port % 256) as u8);
    proof {
        assert(request@ =~= head + port_bytes(target_port));
        match target {
            TargetAddr::Ipv4(o) => {
                assert(head =~= seq![5u8, 1u8, 0u8, 1u8] + o@);
            },
            TargetAddr::Ipv6(o) => {
                assert(head =~= seq![5u8, 1u8, 0u8, 4u8] + o@);
            },
            TargetAddr::Domain(d) => {
                let b = encode_utf8(d@);
                assert(head =~= seq![5u8, 1u8, 0u8, 3u8, b.len() as u8] + b);
            },
        }
    }
    Ok(request)
}

/// Whether the method reply accepts "no authentication".
pub fn check_method_reply(reply: &[u8]) -> (r: Result<(), Socks5Error>)
    ensures
        r is Ok <==> reply@ == no_auth_accepted(),
        r matches Err(e) ==> e == Socks5Error::NoAuthRejected(
            if reply@.len() > 0 {
                reply@[0]
            } else {
                0
            },
            if reply@.len() > 1 {
                reply@[1]
            } else {
                0
            },
        ),
{
    if reply.len() == 2 && reply[0] == 5 && reply[1] == 0 {
        proof {
            assert(reply@ =~= no_auth_accepted());
        }
        Ok(())
    } else {
        let a = if reply.len() > 0 {
            reply[0]
        } else {
            0
        };
        let b = if reply.len() > 1 {
            reply[1]
        } else {
            0
        };
        Err(Socks5Error::NoAuthRejected(a, b))
    }
}

/// The full length of a connect reply that begins with `r`, once `r` holds
/// enough of it to tell: header, bound address, port.
pub open spec fn reply_total(r: Seq<u8>) -> Option<nat> {
    if r[3] == 1 {
        Some(10)
    } else if r[3] == 4 {
        Some(22)
    } else if r[3] == 3 {
        if r.len() >= 5 {
            Some(7 + r[4] as nat)
        } else {
            None
        }
    } else {
        None
    }
}

/// How many more bytes of the connect reply to read after `r`: `Ok(0)` once
/// it is complete, an error as soon as the header shows a failure.
pub open spec fn reply_need(r: Seq<u8>) -> Result<nat, Socks5Error> {
    if r.len() < 4 {
        Ok((4 - r.len()) as nat)
    } else if r[0] != 5 {
        Err(Socks5Error::BadReplyVersion(r[0]))
    } else if r[1] != 0 {
        Err(Socks5Error::ConnectFailed(r[1]))
    } else if r[3] != 1 && r[3] != 3 && r[3] != 4 {
        Err(Socks5Error::BadAddressType(r[3]))
    } else {
        match reply_total(r) {
            None => Ok((5 - r.len()) as nat),
            Some(t) => Ok(
                if r.len() >= t {
                    0
                } else {
                    (t - r.len()) as nat
                },
            ),
        }
    }
}

/// A complete, successful connect reply.
pub open spec fn is_success_reply(r: Seq<u8>) -> bool {
    &&& r.len() >= 4
    &&& r[0] == 5
    &&& r[1] == 0
    &&& (r[3] == 1 || r[3] == 3 || r[3] == 4)
    &&& reply_total(r) == Some(r.len())
}

/// How many more bytes of the connect reply to read after `received`.
pub fn connect_reply_need(received: &[u8]) -> (r: Result<usize, Socks5Error>)
    ensures
        match r {
            Ok(n) => reply_need(received@) == Ok::<nat, Socks5Error>(n as nat),
            Err(e) => reply_need(received@) == Err::<nat, Socks5Error>(e),
        },
{
    let len = received.len();
    if len < 4 {
        return Ok(4 - len);
    }
    if received[0] != 5 {
        return Err(Socks5Error::BadReplyVersion(received[0]));
    }
    if received[1] != 0 {
        return Err(Socks5Error::ConnectFailed(received[1]));
    }
    let atyp = received[3];
    let total: usize = if atyp == 1 {
        10
    } else if atyp == 4 {
        22
    } else if atyp == 3 {
        if len < 5 {
            return Ok(5 - len);
        }
        7 + received[4] as usize
    } else {
        return Err(Socks5Error::BadAddressType(atyp));
    };
    if len >= total {
        Ok(0)
    } else {
        Ok(total - len)
    }
}

/// Reading the reply in the pieces that `reply_need` asks for stops exactly
/// at its end: for every proper beginning of a successful reply it asks for
/// at least one and at most the remaining bytes, and for the whole reply for
/// none. So the forwarder never reads tunnel data as part of the reply.
pub proof fn law_reply_read_exactly(r: Seq<u8>, k: int)
    requires
        is_success_reply(r),
        0 <= k <= r.len(),
    ensures
        k == r.len() ==> reply_need(r.take(k)) == Ok::<nat, Socks5Error>(0),
        k < r.len() ==> (reply_need(r.take(k)) matches Ok(m) && 1 <= m <= r.len() - k),
{
    let p = r.take(k);
    assert(p.len() == k);
    if k >= 4 {
        assert(p[0] == r[0] && p[1] == r[1] && p[3] == r[3]);
        if k >= 5 {
            assert(p[4] == r[4]);
        }
    }
}

/// The hex digit of `d < 16`, lower case.
pub open spec fn hex_digit(d: nat) -> char {
    if d < 10 {
        ((d + 48) as u32) as char
    } else {
        ((d + 87) as u32) as char
    }
}

/// `bytes` as two-digit lower-case hex numbers separated by spaces, as the
/// exchange is logged.
pub open spec fn hex_text(bytes: Seq<u8>) -> Seq<char>
    decreases bytes.len(),
{
    if bytes.len() == 0 {
        Seq::empty()
    } else {
        let b = bytes.last();
        let pair = seq![hex_digit(b as nat / 16), hex_digit(b as nat % 16)];
        if bytes.len() == 1 {
            pair
        } else {
            hex_text(bytes.drop_last()) + seq![' '] + pair
        }
    }
}

fn hex_digit_char(d: u8) -> (c: char)
    requires
        d < 16,
    ensures
        c == hex_digit(d as nat),
{
    let table: [char; 16] = [
        '0',
        '1',
        '2',
        '3',
        '4',
        '5',
        '6',
        '7',
        '8',
        '9',
        'a',
        'b',
        'c',
        'd',
        'e',
        'f',
    ];
    proof {
        assert(table@[d as int] == hex_digit(d as nat)) by {
            assert(table@ =~= seq![
                '0',
                '1',
                '2',
                '3',
                '4',
                '5',
                '6',
                '7',
                '8',
                '9',
                'a',
                'b',
                'c',
                'd',
                'e',
                'f',
            ]);
        }
    }
    table[d as usize]
}

/// `bytes` as space-separated two-digit hex numbers (`hex`).
pub fn hex(bytes: &[u8]) -> (s: String)
    ensures
        s@ == hex_text(bytes@),
{
    let mut s = String::new();
    let mut i: usize = 0;
    while i < bytes.len()
        invariant
            i <= bytes@.len(),
            s@ == hex_text(bytes@.take(i as int)),
        decreases bytes@.len() - i,
    {
        let b = bytes[i];
        if i > 0 {
            crate::text::push_char(&mut s, ' ');
        }
        crate::text::push_char(&mut s, hex_digit_char(b / 16));
        crate::text::push_char(&mut s, hex_digit_char(b % 16));
        proof {
            let t = bytes@.take(i + 1);
            assert(t.drop_last() =~= bytes@.take(i as int));
            assert(t.last() == b);
            if i == 0 {
                assert(bytes@.take(0) =~= Seq::<u8>::empty());
            }
            assert(s@ =~= hex_text(t));
        }
        i = i + 1;
    }
    proof {
        assert(bytes@.take(i as int) =~= bytes@);
    }
    s
}

/// Where the exchange with the upstream stands.
#[derive(Clone, Copy, PartialEq, Eq, Structural)]
pub enum HandshakePhase {
    /// Nothing sent yet.
    Start,
    /// The greeting is being written.
    GreetingSent,
    /// Waiting for the two-byte method reply.
    AwaitMethod,
    /// The CONNECT request is being written.
    ConnectSent,
    /// Reading the connect reply.
    AwaitReply,
    /// The tunnel is open.
    Established,
    /// The exchange failed.
    Failed,
}

/// What happened since the last step.
pub enum HandshakeEvent {
    /// The connection to the upstream is open.
    Begin,
    /// The bytes of the last `Write` are written.
    Written,
    /// The bytes that the last `Read` asked for.
    Received(Vec<u8>),
}

/// What the connection task must do next.
pub enum HandshakeAction {
    Write(Vec<u8>),
    Read(usize),
    Established,
    Fail(Socks5Error),
}

/// An event, as the state machine sees it.
pub enum EventView {
    Begin,
    Written,
    Received(Seq<u8>),
}

/// An action, as the state machine sees it.
pub enum ActionView {
    Write(Seq<u8>),
    Read(nat),
    Established,
    Fail(Socks5Error),
}

pub open spec fn event_view(e: HandshakeEvent) -> EventView {
    match e {
        HandshakeEvent::Begin => EventView::Begin,
        HandshakeEvent::Written => EventView::Written,
        HandshakeEvent::Received(b) => EventView::Received(b@),
    }
}

pub open spec fn action_view(a: HandshakeAction) -> ActionView {
    match a {
        HandshakeAction::Write(b) => ActionView::Write(b@),
        HandshakeAction::Read(n) => ActionView::Read(n as nat),
        HandshakeAction::Established => ActionView::Established,
        HandshakeAction::Fail(e) => ActionView::Fail(e),
    }
}

/// One step of the client exchange with an upstream SOCKS5 proxy: from the
/// phase and the reply bytes read so far, on an event, the next phase, reply
/// bytes and action. Greeting, method reply `05 00`, CONNECT request, then
/// the reply, read in the pieces that `reply_need` asks for.
pub open spec fn handshake_next(
    phase: HandshakePhase,
    reply: Seq<u8>,
    target: TargetAddr,
    port: u16,
    ev: EventView,
) -> (HandshakePhase, Seq<u8>, ActionView) {
    match (phase, ev) {
        (HandshakePhase::Start, EventView::Begin) => (
            HandshakePhase::GreetingSent,
            reply,
            ActionView::Write(greeting()),
        ),
        (HandshakePhase::GreetingSent, EventView::Written) => (
            HandshakePhase::AwaitMethod,
            reply,
            ActionView::Read(2),
        ),
        (HandshakePhase::AwaitMethod, EventView::Received(b)) => {
            if b != no_auth_accepted() {
                (
                    HandshakePhase::Failed,
                    reply,
                    ActionView::Fail(
                        Socks5Error::NoAuthRejected(
                            if b.len() > 0 {
                                b[0]
                            } else {
                                0
                            },
                            if b.len() > 1 {
                                b[1]
                            } else {
                                0
                            },
                        ),
                    ),
                )
            } else {
                match connect_request(target, port) {
                    Some(req) => (HandshakePhase::ConnectSent, reply, ActionView::Write(req)),
                    None => (
                        HandshakePhase::Failed,
                        reply,
                        ActionView::Fail(Socks5Error::DomainTooLong),
                    ),
                }
            }
        },
        (HandshakePhase::ConnectSent, EventView::Written) => (
            HandshakePhase::AwaitReply,
            Seq::empty(),
            ActionView::Read(4),
        ),
        (HandshakePhase::AwaitReply, EventView::Received(b)) => {
            let r = reply + b;
            match reply_need(r) {
                Err(e) => (HandshakePhase::Failed, r, ActionView::Fail(e)),
                Ok(n) => if n == 0 {
                    (HandshakePhase::Established, r, ActionView::Established)
                } else {
                    (HandshakePhase::AwaitReply, r, ActionView::Read(n))
                },
            }
        },
        _ => (HandshakePhase::Failed, reply, ActionView::Fail(Socks5Error::OutOfOrder)),
    }
}

/// The client side of the exchange with an upstream SOCKS5 proxy that
/// opens a tunnel to one target.
pub struct UpstreamHandshake {
    target: TargetAddr,
    port: u16,
    phase: HandshakePhase,
    reply: Vec<u8>,
}

impl UpstreamHandshake {
    pub closed spec fn phase(&self) -> HandshakePhase {
        self.phase
    }

    /// The reply bytes read so far.
    pub closed spec fn reply(&self) -> Seq<u8> {
        self.reply@
    }

    pub closed spec fn target(&self) -> TargetAddr {
        self.target
    }

    pub closed spec fn port(&self) -> u16 {
        self.port
    }

    /// An exchange that will open a tunnel to `target:port`.
    pub fn new(target: TargetAddr, port: u16) -> (h: UpstreamHandshake)
        ensures
            h.phase() == HandshakePhase::Start,
            h.reply() == Seq::<u8>::empty(),
            h.target() == target,
            h.port() == port,
    {
        UpstreamHandshake { target, port, phase: HandshakePhase::Start, reply: Vec::new() }
    }

    /// Takes one step: reports `event` and gets the next action.
    pub fn step(&mut self, event: HandshakeEvent) -> (a: HandshakeAction)
        ensures
            (final(self).phase(), final(self).reply(), action_view(a)) == handshake_next(
                old(self).phase(),
                old(self).reply(),
                old(self).target(),
                old(self).port(),
                event_view(event),
            ),
            final(self).target() == old(self).target(),
            final(self).port() == old(self).port(),
    {
        match (self.phase, event) {
            (HandshakePhase::Start, HandshakeEvent::Begin) => {
                self.phase = HandshakePhase::GreetingSent;
                HandshakeAction::Write(greeting_bytes())
            },
            (HandshakePhase::GreetingSent, HandshakeEvent::Written) => {
                self.phase = HandshakePhase::AwaitMethod;
                HandshakeAction::Read(2)
            },
            (HandshakePhase::AwaitMethod, HandshakeEvent::Received(b)) => {
                match check_method_reply(b.as_slice()) {
                    Err(e) => {
                        self.phase = HandshakePhase::Failed;
                        HandshakeAction::Fail(e)
                    },
                    Ok(()) => match build_socks5_connect_request(&self.target, self.port) {
                        Ok(req) => {
                            self.phase = HandshakePhase::ConnectSent;
                            HandshakeAction::Write(req)
                        },
                        Err(e) => {
                            self.phase = HandshakePhase::Failed;
                            HandshakeAction::Fail(e)
                        },
                    },
                }
            },
            (HandshakePhase::ConnectSent, HandshakeEvent::Written) => {
                self.phase = HandshakePhase::AwaitReply;
                self.reply = Vec::new();
                HandshakeAction::Read(4)
            },
            (HandshakePhase::AwaitReply, HandshakeEvent::Received(b)) => {
                push_all(&mut self.reply, b.as_slice());
                match connect_reply_need(self.reply.as_slice()) {
                    Err(e) => {
                        self.phase = HandshakePhase::Failed;
                        HandshakeAction::Fail(e)
                    },
                    Ok(n) => {
                        if n == 0 {
                            self.phase = HandshakePhase::Established;
                            HandshakeAction::Established
                        } else {
                            HandshakeAction::Read(n)
                        }
                    },
                }
            },
            _ => {
                self.phase = HandshakePhase::Failed;
                HandshakeAction::Fail(Socks5Error::OutOfOrder)
            },
        }
    }
}

/// With an upstream that accepts "no authentication", the exchange writes
/// the greeting, reads the two-byte method reply, writes the CONNECT request
/// and starts reading the reply with its four-byte header.
pub proof fn law_handshake_opening(target: TargetAddr, port: u16, reply: Seq<u8>)
    requires
        connect_request(target, port) is Some,
    ensures
        handshake_next(HandshakePhase::Start, reply, target, port, EventView::Begin) == (
            HandshakePhase::GreetingSent,
            reply,
            ActionView::Write(greeting()),
        ),
        handshake_next(HandshakePhase::GreetingSent, reply, target, port, EventView::Written) == (
            HandshakePhase::AwaitMethod,
            reply,
            ActionView::Read(2),
        ),
        handshake_next(
            HandshakePhase::AwaitMethod,
            reply,
            target,
            port,
            EventView::Received(no_auth_accepted()),
        ) == (
            HandshakePhase::ConnectSent,
            reply,
            ActionView::Write(connect_request(target, port)->0),
        ),
        handshake_next(HandshakePhase::ConnectSent, reply, target, port, EventView::Written) == (
            HandshakePhase::AwaitReply,
            Seq::<u8>::empty(),
            ActionView::Read(4),
        ),
{
}

/// Reading a successful reply in the pieces that the exchange asks for: each
/// piece leads to a read of the rest, and the piece that completes the reply
/// opens the tunnel, with the whole reply and nothing after it consumed.
pub proof fn law_handshake_reply(target: TargetAddr, port: u16, r: Seq<u8>, k: int)
    requires
        is_success_reply(r),
        0 <= k < r.len(),
    ensures
        ({
            let m = reply_need(r.take(k))->Ok_0;
            let next = handshake_next(
                HandshakePhase::AwaitReply,
                r.take(k),
                target,
                port,
                EventView::Received(r.subrange(k, k + m)),
            );
            &&& 1 <= m <= r.len() - k
            &&& k + m < r.len() ==> next == (
                HandshakePhase::AwaitReply,
                r.take(k + m),
                ActionView::Read(reply_need(r.take(k + m))->Ok_0),
            )
            &&& k + m == r.len() ==> next == (
                HandshakePhase::Established,
                r,
                ActionView::Established,
            )
        }),
{
    law_reply_read_exactly(r, k);
    let m = reply_need(r.take(k))->Ok_0;
    assert(r.take(k) + r.subrange(k, k + m) =~= r.take(k + m));
    law_reply_read_exactly(r, k + m);
    if k + m == r.len() {
        assert(r.take(k + m) =~= r);
    }
}

} // verus!
