//! The control protocol: requests that change the advertised prefixes and
//! DNS servers, their little-endian encoding, and the length-prefixed frames
//! they travel in over the local control socket.

use vstd::prelude::*;
use crate::wire::{
    be128, get_be128, get_le32, le32, lemma_be128, lemma_le32, put_be128, put_le32, read_be128,
    read_le32,
};

verus! {

/// How long a prefix or a DNS server stays valid: for a number of seconds
/// from whenever it is asked, or until a moment given in seconds since the
/// Unix epoch.
#[derive(Clone, Copy, Debug, PartialEq, Eq, Structural)]
pub enum Lifetime {
    Duration(u64),
    Until(u64),
}

/// The seconds left of a lifetime at the moment `now` (seconds since the
/// Unix epoch); a moment that has passed leaves zero.
pub open spec fn remaining(l: Lifetime, now: u64) -> u64 {
    match l {
        Lifetime::Duration(d) => d,
        Lifetime::Until(t) => if t > now {
            (t - now) as u64
        } else {
            0
        },
    }
}

/// Relies on std's `SystemTime::now`: the current time in whole seconds
/// since the Unix epoch (zero for a clock set before it).
#[verifier::external_body]
fn unix_now() -> (r: u64) {
    match std::time::SystemTime::now().duration_since(std::time::UNIX_EPOCH) {
        Ok(d) => d.as_secs(),
        Err(_) => 0,
    }
}

impl Lifetime {
    /// The seconds left at the moment `now`.
    pub fn remaining_at(&self, now: u64) -> (r: u64)
        ensures
            r == remaining(*self, now),
    {
        match self {
            Lifetime::Duration(d) => *d,
            Lifetime::Until(t) => t.saturating_sub(now),
        }
    }

    /// The seconds left now: a duration as it stands, a moment less the
    /// current time, never below zero.
    pub fn duration(&self) -> (r: u64)
        ensures
            *self matches Lifetime::Duration(d) ==> r == d,
            *self matches Lifetime::Until(t) ==> r <= t,
            exists|now: u64| r == remaining(*self, now),
    {
        let now = unix_now();
        self.remaining_at(now)
    }
}

/// A prefix to advertise, keyed by its address.
#[derive(Clone, Copy, Debug, PartialEq, Eq, Structural)]
pub struct Prefix {
    pub prefix: u128,
    pub prefix_length: u8,
    pub preferred_lifetime: Lifetime,
    pub valid_lifetime: Lifetime,
}

/// A recursive DNS server to advertise.
#[derive(Clone, Copy, Debug, PartialEq, Eq, Structural)]
pub struct DnsServer {
    pub addr: u128,
    pub lifetime: Lifetime,
}

/// A control request.
#[derive(Clone, Copy, Debug, PartialEq, Eq, Structural)]
pub enum Request {
    AddPrefix(Prefix),
    RemovePrefix(Prefix),
    AddDnsServer(DnsServer),
    RemoveDnsServer(DnsServer),
}

/// The answer to a control request.
#[derive(Clone, Copy, Debug, PartialEq, Eq, Structural)]
pub enum Response {
    Okay,
}

/// Why a control message could not be read: a single failure for a payload
/// that ends early or holds an unknown discriminator or tag.
#[derive(Clone, Copy, Debug, PartialEq, Eq, Structural)]
pub enum Error {
    Eof,
}

/// The most payload bytes that the server reads for one frame.
pub const MAX_FRAME_PAYLOAD: usize = 65535;

/// The seconds that a lifetime carries on the wire.
pub open spec fn lifetime_secs(l: Lifetime) -> u64 {
    match l {
        Lifetime::Duration(d) => d,
        Lifetime::Until(t) => t,
    }
}

/// The wire form of a lifetime: a tag (1 for a duration, 2 for a moment)
/// and the low 32 bits of its seconds, little-endian.
pub open spec fn lifetime_bytes(l: Lifetime) -> Seq<u8> {
    match l {
        Lifetime::Duration(d) => seq![1u8] + le32(d as u32),
        Lifetime::Until(t) => seq![2u8] + le32(t as u32),
    }
}

/// The wire form of a prefix: the address bytes, the length, the preferred
/// and then the valid lifetime.
pub open spec fn prefix_bytes(p: Prefix) -> Seq<u8> {
    be128(p.prefix) + seq![p.prefix_length] + lifetime_bytes(p.preferred_lifetime)
        + lifetime_bytes(p.valid_lifetime)
}

/// The wire form of a DNS server: the address bytes and the lifetime.
pub open spec fn dns_server_bytes(d: DnsServer) -> Seq<u8> {
    be128(d.addr) + lifetime_bytes(d.lifetime)
}

/// The payload of a request: a little-endian discriminator and the body.
pub open spec fn request_bytes(r: Request) -> Seq<u8> {
    match r {
        Request::AddPrefix(p) => le32(1) + prefix_bytes(p),
        Request::RemovePrefix(p) => le32(2) + prefix_bytes(p),
        Request::AddDnsServer(d) => le32(3) + dns_server_bytes(d),
        Request::RemoveDnsServer(d) => le32(4) + dns_server_bytes(d),
    }
}

/// The payload of a response.
pub open spec fn response_bytes(r: Response) -> Seq<u8> {
    le32(0)
}

/// A frame: the payload's length as a little-endian `u32`, then the payload.
pub open spec fn frame_bytes(payload: Seq<u8>) -> Seq<u8> {
    le32(payload.len() as u32) + payload
}

/// The lifetime whose wire form starts at `s[at]`, if its tag is known.
pub open spec fn parse_lifetime(s: Seq<u8>, at: int) -> Option<Lifetime> {
    if s[at] == 1 {
        Some(Lifetime::Duration(read_le32(s, at + 1) as u64))
    } else if s[at] == 2 {
        Some(Lifetime::Until(read_le32(s, at + 1) as u64))
    } else {
        None
    }
}

/// Reads a request payload.
pub open spec fn parse_request(s: Seq<u8>) -> Result<Request, Error> {
    if s.len() < 4 {
        Err(Error::Eof)
    } else {
        let d = read_le32(s, 0);
        if d == 1 || d == 2 {
            if s.len() < 31 {
                Err(Error::Eof)
            } else {
                match (parse_lifetime(s, 21), parse_lifetime(s, 26)) {
                    (Some(preferred), Some(valid)) => {
                        let p = Prefix {
                            prefix: read_be128(s, 4),
                            prefix_length: s[20],
                            preferred_lifetime: preferred,
                            valid_lifetime: valid,
                        };
                        if d == 1 {
                            Ok(Request::AddPrefix(p))
                        } else {
                            Ok(Request::RemovePrefix(p))
                        }
                    },
                    _ => Err(Error::Eof),
                }
            }
        } else if d == 3 || d == 4 {
            if s.len() < 25 {
                Err(Error::Eof)
            } else {
                match parse_lifetime(s, 20) {
                    Some(l) => {
                        let server = DnsServer { addr: read_be128(s, 4), lifetime: l };
                        if d == 3 {
                            Ok(Request::AddDnsServer(server))
                        } else {
                            Ok(Request::RemoveDnsServer(server))
                        }
                    },
                    None => Err(Error::Eof),
                }
            }
        } else {
            Err(Error::Eof)
        }
    }
}

/// Reads a response payload.
pub open spec fn parse_response(s: Seq<u8>) -> Result<Response, Error> {
    if s.len() >= 4 && read_le32(s, 0) == 0 {
        Ok(Response::Okay)
    } else {
        Err(Error::Eof)
    }
}

/// The seconds of every lifetime in a request fit the wire's 32 bits.
pub open spec fn request_fits(r: Request) -> bool {
    match r {
        Request::AddPrefix(p) | Request::RemovePrefix(p) => lifetime_secs(p.preferred_lifetime)
            <= u32::MAX && lifetime_secs(p.valid_lifetime) <= u32::MAX,
        Request::AddDnsServer(d) | Request::RemoveDnsServer(d) => lifetime_secs(d.lifetime)
            <= u32::MAX,
    }
}

fn put_lifetime(buf: &mut Vec<u8>, l: Lifetime)
    ensures
        final(buf)@ == old(buf)@ + lifetime_bytes(l),
{
    match l {
        Lifetime::Duration(d) => {
            buf.push(1);
            put_le32(buf, d as u32);
        },
        Lifetime::Until(t) => {
            buf.push(2);
            put_le32(buf, t as u32);
        },
    }
    assert(final(buf)@ =~= old(buf)@ + lifetime_bytes(l));
}

fn get_lifetime(s: &[u8], at: usize) -> (r: Option<Lifetime>)
    requires
        at + 5 <= s@.len(),
    ensures
        r == parse_lifetime(s@, at as int),
{
    let tag = s[at];
    if tag == 1 {
        Some(Lifetime::Duration(get_le32(s, at + 1) as u64))
    } else if tag == 2 {
        Some(Lifetime::Until(get_le32(s, at + 1) as u64))
    } else {
        None
    }
}

impl Prefix {
    fn encode(&self, buf: &mut Vec<u8>)
        ensures
            final(buf)@ == old(buf)@ + prefix_bytes(*self),
    {
        put_be128(buf, self.prefix);
        buf.push(self.prefix_length);
        put_lifetime(buf, self.preferred_lifetime);
        put_lifetime(buf, self.valid_lifetime);
        assert(final(buf)@ =~= old(buf)@ + prefix_bytes(*self));
    }
}

impl DnsServer {
    fn encode(&self, buf: &mut Vec<u8>)
        ensures
            final(buf)@ == old(buf)@ + dns_server_bytes(*self),
    {
        put_be128(buf, self.addr);
        put_lifetime(buf, self.lifetime);
        assert(final(buf)@ =~= old(buf)@ + dns_server_bytes(*self));
    }
}

impl Request {
    /// Appends the request payload; each lifetime goes as the low 32 bits
    /// of its seconds.
    pub fn encode(&self, buf: &mut Vec<u8>)
        ensures
            final(buf)@ == old(buf)@ + request_bytes(*self),
    {
        match self {
            Request::AddPrefix(p) => {
                put_le32(buf, 1);
                p.encode(buf);
            },
            Request::RemovePrefix(p) => {
                put_le32(buf, 2);
                p.encode(buf);
            },
            Request::AddDnsServer(d) => {
                put_le32(buf, 3);
                d.encode(buf);
            },
            Request::RemoveDnsServer(d) => {
                put_le32(buf, 4);
                d.encode(buf);
            },
        }
        assert(final(buf)@ =~= old(buf)@ + request_bytes(*self));
    }

    /// Reads a request payload.
    pub fn decode(s: &[u8]) -> (r: Result<Request, Error>)
        ensures
            r == parse_request(s@),
    {
        let n = s.len();
        if n < 4 {
            return Err(Error::Eof);
        }
        let d = get_le32(s, 0);
        if d == 1 || d == 2 {
            if n < 31 {
                return Err(Error::Eof);
            }
            let prefix = get_be128(s, 4);
            let prefix_length = s[20];
            let preferred_lifetime = match get_lifetime(s, 21) {
                Some(l) => l,
                None => return Err(Error::Eof),
            };
            let valid_lifetime = match get_lifetime(s, 26) {
                Some(l) => l,
                None => return Err(Error::Eof),
            };
            let p = Prefix { prefix, prefix_length, preferred_lifetime, valid_lifetime };
            if d == 1 {
                Ok(Request::AddPrefix(p))
            } else {
                Ok(Request::RemovePrefix(p))
            }
        } else if d == 3 || d == 4 {
            if n < 25 {
                return Err(Error::Eof);
            }
            let addr = get_be128(s, 4);
            let lifetime = match get_lifetime(s, 20) {
                Some(l) => l,
                None => return Err(Error::Eof),
            };
            let server = DnsServer { addr, lifetime };
            if d == 3 {
                Ok(Request::AddDnsServer(server))
            } else {
                Ok(Request::RemoveDnsServer(server))
            }
        } else {
            Err(Error::Eof)
        }
    }
}

impl Response {
    /// Whether the response reports success.
    pub fn is_ok(&self) -> (r: bool)
        ensures
            r == (*self == Response::Okay),
    {
        match self {
            Response::Okay => true,
        }
    }

    /// Appends the response payload.
    pub fn encode(&self, buf: &mut Vec<u8>)
        ensures
            final(buf)@ == old(buf)@ + response_bytes(*self),
    {
        match self {
            Response::Okay => put_le32(buf, 0),
        }
    }

    /// Reads a response payload.
    pub fn decode(s: &[u8]) -> (r: Result<Response, Error>)
        ensures
            r == parse_response(s@),
    {
        if s.len() >= 4 && get_le32(s, 0) == 0 {
            Ok(Response::Okay)
        } else {
            Err(Error::Eof)
        }
    }
}

/// Wraps a payload in a frame.
pub fn frame(payload: &[u8]) -> (r: Vec<u8>)
    requires
        payload@.len() <= u32::MAX,
    ensures
        r@ == frame_bytes(payload@),
{
    let mut out: Vec<u8> = Vec::new();
    put_le32(&mut out, payload.len() as u32);
    let n = payload.len();
    let mut i: usize = 0;
    while i < n
        invariant
            n == payload@.len(),
            i <= n,
            out@ == le32(n as u32) + payload@.subrange(0, i as int),
        decreases n - i,
    {
        out.push(payload[i]);
        assert(payload@.subrange(0, i + 1) =~= payload@.subrange(0, i as int).push(payload@[i as int]));
        i = i + 1;
    }
    assert(payload@.subrange(0, n as int) =~= payload@);
    out
}

/// The number of payload bytes to read after a frame's length header: the
/// length it gives, capped so that an untrusted peer cannot make the server
/// allocate more than `MAX_FRAME_PAYLOAD` bytes.
pub fn frame_payload_len(header: [u8; 4]) -> (r: usize)
    ensures
        r == if read_le32(header@, 0) <= MAX_FRAME_PAYLOAD {
            read_le32(header@, 0) as usize
        } else {
            MAX_FRAME_PAYLOAD
        },
{
    let len = get_le32(header.as_slice(), 0);
    if len as u64 <= MAX_FRAME_PAYLOAD as u64 {
        len as usize
    } else {
        MAX_FRAME_PAYLOAD
    }
}

proof fn lemma_lifetime_at(s: Seq<u8>, at: int, l: Lifetime)
    requires
        0 <= at,
        at + 5 <= s.len(),
        s.subrange(at, at + 5) == lifetime_bytes(l),
        lifetime_secs(l) <= u32::MAX,
    ensures
        parse_lifetime(s, at) == Some(l),
{
    let v = lifetime_secs(l) as u32;
    assert(s[at] == s.subrange(at, at + 5)[0]);
    assert(s.subrange(at + 1, at + 5) =~= s.subrange(at, at + 5).subrange(1, 5));
    assert(lifetime_bytes(l).subrange(1, 5) =~= le32(v));
    lemma_le32(s, at + 1, v);
}

proof fn lemma_prefix_payload(d: u32, p: Prefix)
    requires
        lifetime_secs(p.preferred_lifetime) <= u32::MAX,
        lifetime_secs(p.valid_lifetime) <= u32::MAX,
    ensures
        ({
            let s = le32(d) + prefix_bytes(p);
            &&& s.len() == 31
            &&& read_le32(s, 0) == d
            &&& read_be128(s, 4) == p.prefix
            &&& s[20] == p.prefix_length
            &&& parse_lifetime(s, 21) == Some(p.preferred_lifetime)
            &&& parse_lifetime(s, 26) == Some(p.valid_lifetime)
        }),
{
    let s = le32(d) + prefix_bytes(p);
    assert(s.subrange(0, 4) =~= le32(d));
    lemma_le32(s, 0, d);
    assert(s.subrange(4, 20) =~= be128(p.prefix));
    lemma_be128(s, 4, p.prefix);
    assert(s.subrange(21, 26) =~= lifetime_bytes(p.preferred_lifetime));
    assert(s.subrange(26, 31) =~= lifetime_bytes(p.valid_lifetime));
    lemma_lifetime_at(s, 21, p.preferred_lifetime);
    lemma_lifetime_at(s, 26, p.valid_lifetime);
}

proof fn lemma_dns_payload(d: u32, srv: DnsServer)
    requires
        lifetime_secs(srv.lifetime) <= u32::MAX,
    ensures
        ({
            let s = le32(d) + dns_server_bytes(srv);
            &&& s.len() == 25
            &&& read_le32(s, 0) == d
            &&& read_be128(s, 4) == srv.addr
            &&& parse_lifetime(s, 20) == Some(srv.lifetime)
        }),
{
    let s = le32(d) + dns_server_bytes(srv);
    assert(s.subrange(0, 4) =~= le32(d));
    lemma_le32(s, 0, d);
    assert(s.subrange(4, 20) =~= be128(srv.addr));
    lemma_be128(s, 4, srv.addr);
    assert(s.subrange(20, 25) =~= lifetime_bytes(srv.lifetime));
    lemma_lifetime_at(s, 20, srv.lifetime);
}

/// Decoding a request's payload gives the request back, where its lifetimes
/// fit in 32 bits.
pub proof fn lemma_request_round_trip(r: Request)
    requires
        request_fits(r),
    ensures
        parse_request(request_bytes(r)) == Ok::<Request, Error>(r),
{
    match r {
        Request::AddPrefix(p) => lemma_prefix_payload(1, p),
        Request::RemovePrefix(p) => lemma_prefix_payload(2, p),
        Request::AddDnsServer(srv) => lemma_dns_payload(3, srv),
        Request::RemoveDnsServer(srv) => lemma_dns_payload(4, srv),
    }
}

/// Decoding a response's payload gives the response back.
pub proof fn lemma_response_round_trip(r: Response)
    ensures
        parse_response(response_bytes(r)) == Ok::<Response, Error>(r),
{
    let s = response_bytes(r);
    assert(s.subrange(0, 4) =~= le32(0));
    lemma_le32(s, 0, 0);
}

/// std's I/O error, carried through failures of the control socket.
#[verifier::external_type_specification]
#[verifier::external_body]
pub struct ExIoError(std::io::Error);

/// Why the control socket could not be set up.
#[derive(Debug)]
pub enum ControlSocketError {
    Io(std::io::Error),
    /// Another daemon listens on the socket.
    SocketInUse,
}

/// What probing the control socket's path found: no file, a live listener,
/// a stale file that refuses connections, or another failure.
#[derive(Debug)]
pub enum SocketProbe {
    Absent,
    Connected,
    Refused,
    Failed(std::io::Error),
}

/// How to go on after probing the control socket's path.
#[derive(Clone, Copy, Debug, PartialEq, Eq, Structural)]
pub enum TakeOver {
    /// Bind the path.
    Bind,
    /// Remove the stale file, then bind the path.
    RemoveStaleThenBind,
}

/// Decides, from the probe of the control socket's path, whether this
/// daemon may take the socket over.
pub fn take_over_socket(probe: SocketProbe) -> (r: Result<TakeOver, ControlSocketError>)
    ensures
        match probe {
            SocketProbe::Absent => r matches Ok(TakeOver::Bind),
            SocketProbe::Connected => r matches Err(ControlSocketError::SocketInUse),
            SocketProbe::Refused => r matches Ok(TakeOver::RemoveStaleThenBind),
            SocketProbe::Failed(e) => r matches Err(ControlSocketError::Io(f)) && f == e,
        },
{
    match probe {
        SocketProbe::Absent => Ok(TakeOver::Bind),
        SocketProbe::Connected => Err(ControlSocketError::SocketInUse),
        SocketProbe::Refused => Ok(TakeOver::RemoveStaleThenBind),
        SocketProbe::Failed(e) => Err(ControlSocketError::Io(e)),
    }
}

} // verus!
