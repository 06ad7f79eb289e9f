//! The ICMPv6 Neighbor Discovery packets that a router sends and receives
//! (RFC 4861 §4.1, §4.2, §4.6 and the RDNSS option of RFC 8106), with their
//! byte-exact encoding and a lenient decoder.

use vstd::prelude::*;
use crate::wire::{
    be128, be16, be32, get_be128, get_be16, get_be32, lemma_be128, lemma_be16, lemma_be32,
    lemma_read_shift, put_be128, put_be16, put_be32, read_be128, read_be16, read_be32,
};

verus! {

/// Why a datagram could not be decoded.
#[derive(Clone, Copy, Debug, PartialEq, Eq, Structural)]
pub enum Error {
    Eof,
    UnknownOptionCode,
    UnknownIcmpType,
}

/// The two ICMPv6 message types of router discovery.
#[derive(Clone, Copy, Debug, PartialEq, Eq, Hash, Structural)]
pub enum IcmpType {
    RouterSolicitation,
    RouterAdvertisement,
}

pub open spec fn icmp_type_code(t: IcmpType) -> u8 {
    match t {
        IcmpType::RouterSolicitation => 133,
        IcmpType::RouterAdvertisement => 134,
    }
}

impl IcmpType {
    /// The value of the ICMPv6 type field.
    pub fn to_u8(self) -> (r: u8)
        ensures
            r == icmp_type_code(self),
    {
        match self {
            IcmpType::RouterSolicitation => 133,
            IcmpType::RouterAdvertisement => 134,
        }
    }

    /// The message type with the given type field, if it is one of the two.
    pub fn from_u8(typ: u8) -> (r: Option<IcmpType>)
        ensures
            typ == 133 ==> r == Some(IcmpType::RouterSolicitation),
            typ == 134 ==> r == Some(IcmpType::RouterAdvertisement),
            typ != 133 && typ != 134 ==> r is None,
    {
        match typ {
            133 => Some(IcmpType::RouterSolicitation),
            134 => Some(IcmpType::RouterAdvertisement),
            _ => None,
        }
    }
}

/// The option types that the codec names.
#[derive(Clone, Copy, Debug, PartialEq, Eq, Hash, Structural)]
pub enum OptionCode {
    SourceLinkLayerAddress,
    TargetLinkLayerAddress,
    PrefixInformation,
    RedirectedHeader,
    Mtu,
    RecursiveDnsServer,
}

pub open spec fn option_code_value(c: OptionCode) -> u8 {
    match c {
        OptionCode::SourceLinkLayerAddress => 1,
        OptionCode::TargetLinkLayerAddress => 2,
        OptionCode::PrefixInformation => 3,
        OptionCode::RedirectedHeader => 4,
        OptionCode::Mtu => 5,
        OptionCode::RecursiveDnsServer => 25,
    }
}

/// Whether `code` is the type field of one of the named options.
pub open spec fn is_named_option(code: u8) -> bool {
    code == 1 || code == 2 || code == 3 || code == 4 || code == 5 || code == 25
}

/// Whether the decoder reads the body of an option of type `code`; all
/// others are skipped.
pub open spec fn is_supported_option(code: u8) -> bool {
    code == 1 || code == 2 || code == 3 || code == 5 || code == 25
}

impl OptionCode {
    /// The option named by a type field.
    pub fn from_u8(code: u8) -> (r: Option<OptionCode>)
        ensures
            is_named_option(code) <==> r is Some,
            r matches Some(c) ==> option_code_value(c) == code,
    {
        match code {
            1 => Some(OptionCode::SourceLinkLayerAddress),
            2 => Some(OptionCode::TargetLinkLayerAddress),
            3 => Some(OptionCode::PrefixInformation),
            4 => Some(OptionCode::RedirectedHeader),
            5 => Some(OptionCode::Mtu),
            25 => Some(OptionCode::RecursiveDnsServer),
            _ => None,
        }
    }

    /// The type field of the option.
    pub fn to_u8(self) -> (r: u8)
        ensures
            r == option_code_value(self),
    {
        match self {
            OptionCode::SourceLinkLayerAddress => 1,
            OptionCode::TargetLinkLayerAddress => 2,
            OptionCode::PrefixInformation => 3,
            OptionCode::RedirectedHeader => 4,
            OptionCode::Mtu => 5,
            OptionCode::RecursiveDnsServer => 25,
        }
    }
}

/// A 6-byte Ethernet hardware address.
#[derive(Clone, Copy, Debug, PartialEq, Eq)]
pub struct LinkLayerAddress(pub [u8; 6]);

/// The Prefix Information option (RFC 4861 §4.6.2); lifetimes in seconds,
/// the prefix as the 128-bit value of the address.
#[derive(Clone, Copy, Debug, PartialEq, Eq, Structural)]
pub struct PrefixInformation {
    pub prefix_length: u8,
    pub on_link: bool,
    pub autonomous: bool,
    pub valid_lifetime: u32,
    pub preferred_lifetime: u32,
    pub prefix: u128,
}

/// The Recursive DNS Server option (RFC 8106 §5.1); lifetime in seconds.
#[derive(Clone, Debug, PartialEq, Eq)]
pub struct RecursiveDnsServer {
    pub lifetime: u32,
    pub addrs: Vec<u128>,
}

/// The options that the codec reads and writes.
#[derive(Clone, Debug, PartialEq, Eq)]
pub enum IcmpOption {
    SourceLinkLayerAddress(LinkLayerAddress),
    TargetLinkLayerAddress(LinkLayerAddress),
    PrefixInformation(PrefixInformation),
    Mtu(u32),
    RecursiveDnsServer(RecursiveDnsServer),
}

/// The mathematical value of an option.
pub enum IcmpOptionView {
    SourceLinkLayerAddress(Seq<u8>),
    TargetLinkLayerAddress(Seq<u8>),
    PrefixInformation(PrefixInformation),
    Mtu(u32),
    RecursiveDnsServer(u32, Seq<u128>),
}

impl View for IcmpOption {
    type V = IcmpOptionView;

    open spec fn view(&self) -> IcmpOptionView {
        match self {
            IcmpOption::SourceLinkLayerAddress(a) => IcmpOptionView::SourceLinkLayerAddress(a.0@),
            IcmpOption::TargetLinkLayerAddress(a) => IcmpOptionView::TargetLinkLayerAddress(a.0@),
            IcmpOption::PrefixInformation(p) => IcmpOptionView::PrefixInformation(*p),
            IcmpOption::Mtu(m) => IcmpOptionView::Mtu(*m),
            IcmpOption::RecursiveDnsServer(r) => IcmpOptionView::RecursiveDnsServer(
                r.lifetime,
                r.addrs@,
            ),
        }
    }
}

/// An option can be encoded: a hardware address has six bytes, and the
/// length of a DNS server list in units of 8 bytes fits in one byte.
pub open spec fn option_wf(o: IcmpOptionView) -> bool {
    match o {
        IcmpOptionView::SourceLinkLayerAddress(mac) => mac.len() == 6,
        IcmpOptionView::TargetLinkLayerAddress(mac) => mac.len() == 6,
        IcmpOptionView::RecursiveDnsServer(_, addrs) => addrs.len() <= MAX_DNS_ADDRS,
        _ => true,
    }
}

/// The most addresses that one Recursive DNS Server option can carry.
pub const MAX_DNS_ADDRS: usize = 127;

/// The flags byte that carries two flags in its two highest bits.
pub open spec fn flag_byte(high: bool, next: bool) -> u8 {
    if high && next {
        0xc0
    } else if high {
        0x80
    } else if next {
        0x40
    } else {
        0
    }
}

/// The bytes of a sequence of addresses, each in network order.
pub open spec fn addrs_bytes(addrs: Seq<u128>) -> Seq<u8>
    decreases addrs.len(),
{
    if addrs.len() == 0 {
        seq![]
    } else {
        addrs_bytes(addrs.drop_last()) + be128(addrs.last())
    }
}

/// The wire form of an option: type, length in units of 8 bytes, body.
pub open spec fn option_bytes(o: IcmpOptionView) -> Seq<u8> {
    match o {
        IcmpOptionView::SourceLinkLayerAddress(mac) => seq![1u8, 1u8] + mac,
        IcmpOptionView::TargetLinkLayerAddress(mac) => seq![2u8, 1u8] + mac,
        IcmpOptionView::PrefixInformation(p) => seq![
            3u8,
            4u8,
            p.prefix_length,
            flag_byte(p.on_link, p.autonomous),
        ] + be32(p.valid_lifetime) + be32(p.preferred_lifetime) + be32(0) + be128(p.prefix),
        IcmpOptionView::Mtu(mtu) => seq![5u8, 1u8, 0u8, 0u8] + be32(mtu),
        IcmpOptionView::RecursiveDnsServer(lifetime, addrs) => seq![
            25u8,
            (1 + 2 * addrs.len()) as u8,
            0u8,
            0u8,
        ] + be32(lifetime) + addrs_bytes(addrs),
    }
}

/// The wire form of a sequence of options.
pub open spec fn options_bytes(os: Seq<IcmpOptionView>) -> Seq<u8>
    decreases os.len(),
{
    if os.len() == 0 {
        seq![]
    } else {
        options_bytes(os.drop_last()) + option_bytes(os.last())
    }
}

pub proof fn lemma_addrs_bytes_len(addrs: Seq<u128>)
    ensures
        addrs_bytes(addrs).len() == 16 * addrs.len(),
    decreases addrs.len(),
{
    if addrs.len() > 0 {
        lemma_addrs_bytes_len(addrs.drop_last());
    }
}

/// Every encoded option fills a whole number of 8-byte units, and its length
/// byte gives that number.
pub proof fn lemma_option_length(o: IcmpOptionView)
    requires
        option_wf(o),
    ensures
        option_bytes(o).len() % 8 == 0,
        option_bytes(o)[1] == option_bytes(o).len() / 8,
{
    match o {
        IcmpOptionView::RecursiveDnsServer(lifetime, addrs) => {
            lemma_addrs_bytes_len(addrs);
        },
        _ => {},
    }
}

impl LinkLayerAddress {
    /// Appends the six bytes of the address.
    pub fn encode(&self, buf: &mut Vec<u8>)
        ensures
            final(buf)@ == old(buf)@ + self.0@,
    {
        buf.push(self.0[0]);
        buf.push(self.0[1]);
        buf.push(self.0[2]);
        buf.push(self.0[3]);
        buf.push(self.0[4]);
        buf.push(self.0[5]);
        assert(final(buf)@ =~= old(buf)@ + self.0@);
    }

    /// Reads the six bytes at `at`.
    pub fn decode(s: &[u8], at: usize) -> (r: LinkLayerAddress)
        requires
            at + 6 <= s@.len(),
        ensures
            r.0@ == s@.subrange(at as int, at + 6),
    {
        let r = LinkLayerAddress([s[at], s[at + 1], s[at + 2], s[at + 3], s[at + 4], s[at + 5]]);
        assert(r.0@ =~= s@.subrange(at as int, at + 6));
        r
    }
}

fn flags_of(high: bool, next: bool) -> (r: u8)
    ensures
        r == flag_byte(high, next),
{
    if high && next {
        0xc0
    } else if high {
        0x80
    } else if next {
        0x40
    } else {
        0
    }
}

impl IcmpOption {
    pub open spec fn wf(&self) -> bool {
        option_wf(self@)
    }

    /// Appends the wire form of the option.
    pub fn encode(&self, buf: &mut Vec<u8>)
        requires
            self.wf(),
        ensures
            final(buf)@ == old(buf)@ + option_bytes(self@),
    {
        match self {
            IcmpOption::SourceLinkLayerAddress(addr) => {
                buf.push(OptionCode::SourceLinkLayerAddress.to_u8());
                buf.push(1);
                addr.encode(buf);
            },
            IcmpOption::TargetLinkLayerAddress(addr) => {
                buf.push(OptionCode::TargetLinkLayerAddress.to_u8());
                buf.push(1);
                addr.encode(buf);
            },
            IcmpOption::PrefixInformation(opt) => {
                buf.push(OptionCode::PrefixInformation.to_u8());
                buf.push(4);
                buf.push(opt.prefix_length);
                buf.push(flags_of(opt.on_link, opt.autonomous));
                put_be32(buf, opt.valid_lifetime);
                put_be32(buf, opt.preferred_lifetime);
                put_be32(buf, 0);
                put_be128(buf, opt.prefix);
            },
            IcmpOption::Mtu(mtu) => {
                buf.push(OptionCode::Mtu.to_u8());
                buf.push(1);
                buf.push(0);
                buf.push(0);
                put_be32(buf, *mtu);
            },
            IcmpOption::RecursiveDnsServer(opt) => {
                let n = opt.addrs.len();
                buf.push(OptionCode::RecursiveDnsServer.to_u8());
                buf.push((1 + 2 * n) as u8);
                buf.push(0);
                buf.push(0);
                put_be32(buf, opt.lifetime);
                let ghost start = buf@;
                let mut i: usize = 0;
                while i < n
                    invariant
                        n == opt.addrs@.len(),
                        i <= n,
                        buf@ == start + addrs_bytes(opt.addrs@.subrange(0, i as int)),
                    decreases n - i,
                {
                    put_be128(buf, opt.addrs[i]);
                    assert(opt.addrs@.subrange(0, i + 1).drop_last() =~= opt.addrs@.subrange(
                        0,
                        i as int,
                    ));
                    i = i + 1;
                }
                assert(opt.addrs@.subrange(0, n as int) =~= opt.addrs@);
            },
        }
        assert(final(buf)@ =~= old(buf)@ + option_bytes(self@));
    }
}

/// The number of addresses that a Recursive DNS Server option of length
/// `len` (in units of 8 bytes, at least one) carries.
pub open spec fn dns_addr_count(len: u8) -> nat {
    ((len - 1) / 2) as nat
}

/// The least length, in units of 8 bytes, that holds the fixed layout of an
/// option of type `code`.
pub open spec fn min_option_units(code: u8) -> u8 {
    if code == 3 {
        4
    } else {
        1
    }
}

/// What reading one option at the start of a byte sequence gives.
pub enum OptionParse {
    /// A supported option, and the number of bytes it took.
    Known(IcmpOptionView, nat),
    /// An option of another type, skipped, and the number of bytes it took.
    Skipped(nat),
    /// A length of zero, one too short for the option's layout, or too few
    /// bytes left for it.
    Malformed,
}

/// Reads the option at the start of `t`. Every option takes as many bytes
/// as its length byte gives, in units of 8.
#[verifier::opaque]
pub open spec fn parse_option(t: Seq<u8>) -> OptionParse {
    if t.len() < 2 {
        OptionParse::Malformed
    } else {
        let size = t[1] * 8;
        if t[1] < min_option_units(t[0]) || t.len() < size {
            OptionParse::Malformed
        } else if t[0] == 1 {
            OptionParse::Known(IcmpOptionView::SourceLinkLayerAddress(t.subrange(2, 8)), size as nat)
        } else if t[0] == 2 {
            OptionParse::Known(IcmpOptionView::TargetLinkLayerAddress(t.subrange(2, 8)), size as nat)
        } else if t[0] == 3 {
            OptionParse::Known(
                IcmpOptionView::PrefixInformation(
                    PrefixInformation {
                        prefix_length: t[2],
                        on_link: t[3] & 0x80u8 != 0,
                        autonomous: t[3] & 0x40u8 != 0,
                        valid_lifetime: read_be32(t, 4),
                        preferred_lifetime: read_be32(t, 8),
                        prefix: read_be128(t, 16),
                    },
                ),
                size as nat,
            )
        } else if t[0] == 5 {
            OptionParse::Known(IcmpOptionView::Mtu(read_be32(t, 4)), size as nat)
        } else if t[0] == 25 {
            OptionParse::Known(
                IcmpOptionView::RecursiveDnsServer(
                    read_be32(t, 4),
                    Seq::new(dns_addr_count(t[1]), |i: int| read_be128(t, 8 + 16 * i)),
                ),
                size as nat,
            )
        } else {
            OptionParse::Skipped(size as nat)
        }
    }
}

/// Reads options from `t` until it ends or an option is malformed, skipping
/// the ones of unsupported types.
pub open spec fn parse_options(t: Seq<u8>) -> Seq<IcmpOptionView>
    decreases t.len(),
{
    match parse_option(t) {
        OptionParse::Known(o, k) => if 0 < k <= t.len() {
            seq![o] + parse_options(t.subrange(k as int, t.len() as int))
        } else {
            seq![]
        },
        OptionParse::Skipped(k) => if 0 < k <= t.len() {
            parse_options(t.subrange(k as int, t.len() as int))
        } else {
            seq![]
        },
        OptionParse::Malformed => seq![],
    }
}

/// An option read takes at least one unit and no more bytes than there are.
proof fn lemma_parse_option_size(t: Seq<u8>)
    ensures
        parse_option(t) matches OptionParse::Known(_, k) ==> 8 <= k <= t.len(),
        parse_option(t) matches OptionParse::Skipped(k) ==> 8 <= k <= t.len(),
{
    reveal(parse_option);
}

/// One step of reading options from the suffix of `s` at `at`.
proof fn lemma_parse_options_step(s: Seq<u8>, at: int)
    requires
        0 <= at <= s.len(),
    ensures
        ({
            let rest = s.subrange(at, s.len() as int);
            match parse_option(rest) {
                OptionParse::Known(o, k) => 0 < k && at + k <= s.len() && parse_options(rest) == seq![o]
                    + parse_options(s.subrange(at + k, s.len() as int)),
                OptionParse::Skipped(k) => 0 < k && at + k <= s.len() && parse_options(rest)
                    == parse_options(s.subrange(at + k, s.len() as int)),
                OptionParse::Malformed => parse_options(rest) == Seq::<IcmpOptionView>::empty(),
            }
        }),
        at == s.len() ==> parse_options(s.subrange(at, s.len() as int)) == Seq::<
            IcmpOptionView,
        >::empty(),
{
    lemma_parse_option_size(s.subrange(at, s.len() as int));
    let rest = s.subrange(at, s.len() as int);
    match parse_option(rest) {
        OptionParse::Known(o, k) => {
            assert(rest.subrange(k as int, rest.len() as int) =~= s.subrange(
                at + k,
                s.len() as int,
            ));
        },
        OptionParse::Skipped(k) => {
            assert(rest.subrange(k as int, rest.len() as int) =~= s.subrange(
                at + k,
                s.len() as int,
            ));
        },
        OptionParse::Malformed => {},
    }
}

/// The views of a sequence of options.
pub open spec fn option_views(os: Seq<IcmpOption>) -> Seq<IcmpOptionView> {
    os.map_values(|o: IcmpOption| o@)
}

proof fn lemma_flag_byte(high: bool, next: bool)
    ensures
        (flag_byte(high, next) & 0x80u8 != 0) == high,
        (flag_byte(high, next) & 0x40u8 != 0) == next,
{
    assert(0xc0u8 & 0x80u8 != 0 && 0xc0u8 & 0x40u8 != 0) by (bit_vector);
    assert(0x80u8 & 0x80u8 != 0 && 0x80u8 & 0x40u8 == 0) by (bit_vector);
    assert(0x40u8 & 0x80u8 == 0 && 0x40u8 & 0x40u8 != 0) by (bit_vector);
    assert(0u8 & 0x80u8 == 0 && 0u8 & 0x40u8 == 0) by (bit_vector);
}

proof fn lemma_addrs_bytes_at(addrs: Seq<u128>, i: int)
    requires
        0 <= i < addrs.len(),
    ensures
        addrs_bytes(addrs).len() == 16 * addrs.len(),
        addrs_bytes(addrs).subrange(16 * i, 16 * i + 16) == be128(addrs[i]),
    decreases addrs.len(),
{
    lemma_addrs_bytes_len(addrs);
    lemma_addrs_bytes_len(addrs.drop_last());
    let prev = addrs_bytes(addrs.drop_last());
    if i < addrs.len() - 1 {
        lemma_addrs_bytes_at(addrs.drop_last(), i);
        assert(addrs_bytes(addrs).subrange(16 * i, 16 * i + 16) =~= prev.subrange(
            16 * i,
            16 * i + 16,
        ));
    } else {
        assert(addrs_bytes(addrs).subrange(16 * i, 16 * i + 16) =~= be128(addrs.last()));
    }
}

/// Reading the encoding of an option, followed by anything, gives the
/// option back and takes exactly its bytes.
pub proof fn lemma_parse_option_bytes(o: IcmpOptionView, rest: Seq<u8>)
    requires
        option_wf(o),
    ensures
        parse_option(option_bytes(o) + rest) == OptionParse::Known(o, option_bytes(o).len()),
{
    reveal(parse_option);
    let b = option_bytes(o);
    let t = b + rest;
    match o {
        IcmpOptionView::SourceLinkLayerAddress(mac) => {
            assert(t[0] == 1 && t[1] == 1 && b.len() == 8);
            assert(t.subrange(2, 8) =~= mac);
        },
        IcmpOptionView::TargetLinkLayerAddress(mac) => {
            assert(t[0] == 2 && t[1] == 1 && b.len() == 8);
            assert(t.subrange(2, 8) =~= mac);
        },
        IcmpOptionView::PrefixInformation(p) => {
            lemma_parse_prefix_option_bytes(p, rest);
        },
        IcmpOptionView::Mtu(mtu) => {
            assert(t[0] == 5 && t[1] == 1 && b.len() == 8);
            assert(t.subrange(4, 8) =~= be32(mtu));
            lemma_be32(t, 4, mtu);
        },
        IcmpOptionView::RecursiveDnsServer(lifetime, addrs) => {
            lemma_parse_dns_option_bytes(lifetime, addrs, rest);
        },
    }
}

proof fn lemma_parse_prefix_option_bytes(p: PrefixInformation, rest: Seq<u8>)
    ensures
        ({
            let o = IcmpOptionView::PrefixInformation(p);
            parse_option(option_bytes(o) + rest) == OptionParse::Known(o, option_bytes(o).len())
        }),
{
    reveal(parse_option);
    let o = IcmpOptionView::PrefixInformation(p);
    let b = option_bytes(o);
    let t = b + rest;
    assert(t[0] == 3 && t[1] == 4 && b.len() == 32);
    assert(t[2] == p.prefix_length && t[3] == flag_byte(p.on_link, p.autonomous));
    lemma_flag_byte(p.on_link, p.autonomous);
    assert(t.subrange(4, 8) =~= be32(p.valid_lifetime));
    assert(t.subrange(8, 12) =~= be32(p.preferred_lifetime));
    assert(t.subrange(16, 32) =~= be128(p.prefix));
    lemma_be32(t, 4, p.valid_lifetime);
    lemma_be32(t, 8, p.preferred_lifetime);
    lemma_be128(t, 16, p.prefix);
}

proof fn lemma_parse_dns_option_bytes(lifetime: u32, addrs: Seq<u128>, rest: Seq<u8>)
    requires
        addrs.len() <= MAX_DNS_ADDRS,
    ensures
        ({
            let o = IcmpOptionView::RecursiveDnsServer(lifetime, addrs);
            parse_option(option_bytes(o) + rest) == OptionParse::Known(o, option_bytes(o).len())
        }),
{
    reveal(parse_option);
    let o = IcmpOptionView::RecursiveDnsServer(lifetime, addrs);
    let b = option_bytes(o);
    let t = b + rest;
    lemma_addrs_bytes_len(addrs);
    let n = addrs.len();
    assert(t[0] == 25 && t[1] == 1 + 2 * n && b.len() == 8 + 16 * n);
    assert(t.subrange(4, 8) =~= be32(lifetime));
    lemma_be32(t, 4, lifetime);
    assert(dns_addr_count(t[1]) == n);
    let ab = addrs_bytes(addrs);
    assert forall|i: int| 0 <= i < n implies read_be128(t, 8 + 16 * i) == addrs[i] by {
        lemma_addrs_bytes_at(addrs, i);
        assert(t.subrange(8 + 16 * i, 8 + 16 * i + 16) =~= ab.subrange(16 * i, 16 * i + 16));
        lemma_be128(t, 8 + 16 * i, addrs[i]);
    }
    assert(Seq::new(n, |i: int| read_be128(t, 8 + 16 * i)) =~= addrs);
}

/// Reading the encoding of a sequence of options, followed by `rest`, gives
/// the options and then what `rest` gives.
pub proof fn lemma_parse_options_bytes(os: Seq<IcmpOptionView>, rest: Seq<u8>)
    requires
        forall|i: int| 0 <= i < os.len() ==> option_wf(#[trigger] os[i]),
    ensures
        parse_options(options_bytes(os) + rest) == os + parse_options(rest),
    decreases os.len(),
{
    if os.len() == 0 {
        assert(options_bytes(os) + rest =~= rest);
        assert(os + parse_options(rest) =~= parse_options(rest));
    } else {
        let init = os.drop_last();
        let last = os.last();
        let tail = option_bytes(last) + rest;
        assert(options_bytes(os) + rest =~= options_bytes(init) + tail);
        lemma_parse_options_bytes(init, tail);
        lemma_parse_option_bytes(last, rest);
        lemma_option_length(last);
        assert(tail.subrange(option_bytes(last).len() as int, tail.len() as int) =~= rest);
        assert(parse_options(tail) == seq![last] + parse_options(rest));
        assert(init + (seq![last] + parse_options(rest)) =~= os + parse_options(rest));
    }
}

/// An option of an unsupported type and any length from 1 to 31 units,
/// placed between supported options, leaves the decoded options unchanged.
pub proof fn lemma_unknown_option_skipped(
    before: Seq<IcmpOptionView>,
    code: u8,
    len: u8,
    body: Seq<u8>,
    after: Seq<IcmpOptionView>,
)
    requires
        forall|i: int| 0 <= i < before.len() ==> option_wf(#[trigger] before[i]),
        forall|i: int| 0 <= i < after.len() ==> option_wf(#[trigger] after[i]),
        !is_supported_option(code),
        1 <= len <= 31,
        body.len() == 8 * len - 2,
    ensures
        parse_options(options_bytes(before) + (seq![code, len] + body) + options_bytes(after))
            == before + after,
{
    reveal(parse_option);
    let unknown = seq![code, len] + body;
    let ob = options_bytes(after);
    let tail = unknown + ob;
    assert(options_bytes(before) + unknown + ob =~= options_bytes(before) + tail);
    lemma_parse_options_bytes(before, tail);
    assert(parse_option(tail) == OptionParse::Skipped(unknown.len()));
    assert(tail.subrange(unknown.len() as int, tail.len() as int) =~= ob + seq![]);
    lemma_parse_options_bytes(after, seq![]);
    assert(parse_options(seq![]) =~= seq![]);
    assert(after + parse_options(seq![]) =~= after);
}

impl IcmpOption {
    /// Reads the option that starts at `pos`. Gives the option, or
    /// `UnknownOptionCode` for an option of another type, which is skipped,
    /// together with the position after it; or `Eof` for a length of zero,
    /// one too short for the option's layout, or more bytes than are left.
    pub fn decode(s: &[u8], pos: usize) -> (r: (Result<IcmpOption, Error>, usize))
        requires
            pos <= s@.len(),
        ensures
            match parse_option(s@.subrange(pos as int, s@.len() as int)) {
                OptionParse::Known(o, k) => r.0 matches Ok(opt) && opt@ == o && r.1 == pos + k,
                OptionParse::Skipped(k) => r.0 == Err::<IcmpOption, Error>(
                    Error::UnknownOptionCode,
                ) && r.1 == pos + k,
                OptionParse::Malformed => r.0 == Err::<IcmpOption, Error>(Error::Eof),
            },
    {
        reveal(parse_option);
        let n = s.len();
        let ghost t = s@.subrange(pos as int, n as int);
        let rest = n - pos;
        if rest < 2 {
            return (Err(Error::Eof), pos);
        }
        let code = s[pos];
        let len = s[pos + 1];
        assert(t[0] == code && t[1] == len);
        let min_units: u8 = if code == 3 {
            4
        } else {
            1
        };
        let size: usize = len as usize * 8;
        if len < min_units || rest < size {
            return (Err(Error::Eof), pos);
        }
        match OptionCode::from_u8(code) {
            Some(OptionCode::SourceLinkLayerAddress) => {
                let addr = LinkLayerAddress::decode(s, pos + 2);
                assert(addr.0@ =~= t.subrange(2, 8));
                (Ok(IcmpOption::SourceLinkLayerAddress(addr)), pos + size)
            },
            Some(OptionCode::TargetLinkLayerAddress) => {
                let addr = LinkLayerAddress::decode(s, pos + 2);
                assert(addr.0@ =~= t.subrange(2, 8));
                (Ok(IcmpOption::TargetLinkLayerAddress(addr)), pos + size)
            },
            Some(OptionCode::PrefixInformation) => {
                let prefix_length = s[pos + 2];
                let flags = s[pos + 3];
                let valid_lifetime = get_be32(s, pos + 4);
                let preferred_lifetime = get_be32(s, pos + 8);
                let prefix = get_be128(s, pos + 16);
                proof {
                    lemma_read_shift(s@, pos as int, 4);
                    lemma_read_shift(s@, pos as int, 8);
                    lemma_read_shift(s@, pos as int, 16);
                    assert(t[2] == prefix_length && t[3] == flags);
                }
                let opt = PrefixInformation {
                    prefix_length,
                    on_link: flags & 0x80u8 != 0,
                    autonomous: flags & 0x40u8 != 0,
                    valid_lifetime,
                    preferred_lifetime,
                    prefix,
                };
                (Ok(IcmpOption::PrefixInformation(opt)), pos + size)
            },
            Some(OptionCode::Mtu) => {
                let mtu = get_be32(s, pos + 4);
                proof {
                    lemma_read_shift(s@, pos as int, 4);
                }
                (Ok(IcmpOption::Mtu(mtu)), pos + size)
            },
            Some(OptionCode::RecursiveDnsServer) => {
                let count: usize = ((len - 1) / 2) as usize;
                assert(count == dns_addr_count(len));
                assert(8 + 16 * count <= size);
                let lifetime = get_be32(s, pos + 4);
                proof {
                    lemma_read_shift(s@, pos as int, 4);
                }
                let mut addrs: Vec<u128> = Vec::new();
                let mut i: usize = 0;
                while i < count
                    invariant
                        i <= count,
                        count == dns_addr_count(len),
                        pos + 8 + 16 * count <= n,
                        n == s@.len(),
                        t == s@.subrange(pos as int, n as int),
                        addrs@ =~= Seq::new(i as nat, |j: int| read_be128(t, 8 + 16 * j)),
                    decreases count - i,
                {
                    let a = get_be128(s, pos + 8 + 16 * i);
                    proof {
                        lemma_read_shift(s@, pos as int, 8 + 16 * i);
                    }
                    addrs.push(a);
                    i = i + 1;
                }
                (Ok(IcmpOption::RecursiveDnsServer(RecursiveDnsServer { lifetime, addrs })), pos
                    + size)
            },
            _ => (Err(Error::UnknownOptionCode), pos + size),
        }
    }
}

/// A Router Advertisement (RFC 4861 §4.2). The router lifetime is in
/// seconds; the two timers are in milliseconds, `None` where unspecified.
#[derive(Clone, Debug, PartialEq, Eq)]
pub struct RouterAdvertisement {
    pub cur_hop_limit: u8,
    pub managed: bool,
    pub other: bool,
    pub router_lifetime: u16,
    pub reachable_timer: Option<u32>,
    pub retrans_timer: Option<u32>,
    pub options: Vec<IcmpOption>,
}

/// The mathematical value of a Router Advertisement.
pub struct RouterAdvertisementView {
    pub cur_hop_limit: u8,
    pub managed: bool,
    pub other: bool,
    pub router_lifetime: u16,
    pub reachable_timer: Option<u32>,
    pub retrans_timer: Option<u32>,
    pub options: Seq<IcmpOptionView>,
}

impl View for RouterAdvertisement {
    type V = RouterAdvertisementView;

    open spec fn view(&self) -> RouterAdvertisementView {
        RouterAdvertisementView {
            cur_hop_limit: self.cur_hop_limit,
            managed: self.managed,
            other: self.other,
            router_lifetime: self.router_lifetime,
            reachable_timer: self.reachable_timer,
            retrans_timer: self.retrans_timer,
            options: option_views(self.options@),
        }
    }
}

/// A Router Solicitation (RFC 4861 §4.1) and its source link-layer address.
#[derive(Clone, Copy, Debug, PartialEq, Eq)]
pub struct RouterSolicitation {
    pub source_link_layer_addr: Option<LinkLayerAddress>,
}

/// The body of an ICMPv6 packet.
#[derive(Clone, Debug, PartialEq, Eq)]
pub enum IcmpContent {
    RouterSolicitation(RouterSolicitation),
    RouterAdvertisement(RouterAdvertisement),
}

/// An ICMPv6 packet; the checksum is carried as it stands, the kernel
/// computes and checks it.
#[derive(Clone, Debug, PartialEq, Eq)]
pub struct IcmpPacket {
    pub typ: IcmpType,
    pub code: u8,
    pub checksum: u16,
    pub content: IcmpContent,
}

/// The mathematical value of a packet body; a solicitation is its source
/// link-layer address.
pub enum IcmpContentView {
    RouterSolicitation(Option<Seq<u8>>),
    RouterAdvertisement(RouterAdvertisementView),
}

/// The mathematical value of a packet.
pub struct IcmpPacketView {
    pub typ: IcmpType,
    pub code: u8,
    pub checksum: u16,
    pub content: IcmpContentView,
}

pub open spec fn solicitation_view(s: RouterSolicitation) -> Option<Seq<u8>> {
    match s.source_link_layer_addr {
        Some(a) => Some(a.0@),
        None => None,
    }
}

impl View for IcmpPacket {
    type V = IcmpPacketView;

    open spec fn view(&self) -> IcmpPacketView {
        IcmpPacketView {
            typ: self.typ,
            code: self.code,
            checksum: self.checksum,
            content: match self.content {
                IcmpContent::RouterSolicitation(s) => IcmpContentView::RouterSolicitation(
                    solicitation_view(s),
                ),
                IcmpContent::RouterAdvertisement(a) => IcmpContentView::RouterAdvertisement(a@),
            },
        }
    }
}

/// The wire value of a timer: zero where it is unspecified.
pub open spec fn timer_value(t: Option<u32>) -> u32 {
    match t {
        Some(v) => v,
        None => 0,
    }
}

/// The timer that a wire value stands for.
pub open spec fn timer_of(v: u32) -> Option<u32> {
    if v == 0 {
        None
    } else {
        Some(v)
    }
}

/// A timer can be written: a specified timer is not zero, which the wire
/// reserves for "unspecified".
pub open spec fn timer_wf(t: Option<u32>) -> bool {
    t != Some(0u32)
}

/// An advertisement can be encoded and read back.
pub open spec fn advertisement_wf(a: RouterAdvertisementView) -> bool {
    &&& timer_wf(a.reachable_timer)
    &&& timer_wf(a.retrans_timer)
    &&& forall|i: int| 0 <= i < a.options.len() ==> option_wf(#[trigger] a.options[i])
}

/// A packet can be encoded and read back: its type is that of its body.
pub open spec fn packet_wf(p: IcmpPacketView) -> bool {
    match p.content {
        IcmpContentView::RouterSolicitation(sll) => p.typ == IcmpType::RouterSolicitation && (
        sll matches Some(mac) ==> mac.len() == 6),
        IcmpContentView::RouterAdvertisement(a) => p.typ == IcmpType::RouterAdvertisement
            && advertisement_wf(a),
    }
}

/// The wire form of a solicitation body: four reserved zero bytes and the
/// source link-layer address option, if any.
pub open spec fn solicitation_bytes(sll: Option<Seq<u8>>) -> Seq<u8> {
    seq![0u8, 0u8, 0u8, 0u8] + match sll {
        Some(mac) => option_bytes(IcmpOptionView::SourceLinkLayerAddress(mac)),
        None => seq![],
    }
}

/// The wire form of an advertisement body.
pub open spec fn advertisement_bytes(a: RouterAdvertisementView) -> Seq<u8> {
    seq![a.cur_hop_limit, flag_byte(a.managed, a.other)] + be16(a.router_lifetime) + be32(
        timer_value(a.reachable_timer),
    ) + be32(timer_value(a.retrans_timer)) + options_bytes(a.options)
}

/// The wire form of a packet.
pub open spec fn packet_bytes(p: IcmpPacketView) -> Seq<u8> {
    seq![icmp_type_code(p.typ), p.code] + be16(p.checksum) + match p.content {
        IcmpContentView::RouterSolicitation(sll) => solicitation_bytes(sll),
        IcmpContentView::RouterAdvertisement(a) => advertisement_bytes(a),
    }
}

/// The address of the first source link-layer address option among `os`.
pub open spec fn first_source_address(os: Seq<IcmpOptionView>) -> Option<Seq<u8>>
    decreases os.len(),
{
    if os.len() == 0 {
        None
    } else {
        match os[0] {
            IcmpOptionView::SourceLinkLayerAddress(mac) => Some(mac),
            _ => first_source_address(os.drop_first()),
        }
    }
}

/// Reads a solicitation body: four reserved bytes, whatever they hold, then
/// options, read as in an advertisement; the first source link-layer address
/// among them is kept.
pub open spec fn parse_solicitation(t: Seq<u8>) -> Result<Option<Seq<u8>>, Error> {
    if t.len() < 4 {
        Err(Error::Eof)
    } else {
        Ok(first_source_address(parse_options(t.subrange(4, t.len() as int))))
    }
}

/// Reads an advertisement body: twelve fixed bytes, then the options.
pub open spec fn parse_advertisement(t: Seq<u8>) -> Result<RouterAdvertisementView, Error> {
    if t.len() < 12 {
        Err(Error::Eof)
    } else {
        Ok(
            RouterAdvertisementView {
                cur_hop_limit: t[0],
                managed: t[1] & 0x80u8 != 0,
                other: t[1] & 0x40u8 != 0,
                router_lifetime: read_be16(t, 2),
                reachable_timer: timer_of(read_be32(t, 4)),
                retrans_timer: timer_of(read_be32(t, 8)),
                options: parse_options(t.subrange(12, t.len() as int)),
            },
        )
    }
}

/// Reads a packet.
pub open spec fn parse_packet(s: Seq<u8>) -> Result<IcmpPacketView, Error> {
    if s.len() < 1 {
        Err(Error::Eof)
    } else if s[0] != 133 && s[0] != 134 {
        Err(Error::UnknownIcmpType)
    } else if s.len() < 4 {
        Err(Error::Eof)
    } else {
        let body = s.subrange(4, s.len() as int);
        if s[0] == 133 {
            match parse_solicitation(body) {
                Ok(sll) => Ok(
                    IcmpPacketView {
                        typ: IcmpType::RouterSolicitation,
                        code: s[1],
                        checksum: read_be16(s, 2),
                        content: IcmpContentView::RouterSolicitation(sll),
                    },
                ),
                Err(e) => Err(e),
            }
        } else {
            match parse_advertisement(body) {
                Ok(a) => Ok(
                    IcmpPacketView {
                        typ: IcmpType::RouterAdvertisement,
                        code: s[1],
                        checksum: read_be16(s, 2),
                        content: IcmpContentView::RouterAdvertisement(a),
                    },
                ),
                Err(e) => Err(e),
            }
        }
    }
}

proof fn lemma_single_option(o: IcmpOptionView)
    requires
        option_wf(o),
    ensures
        parse_options(option_bytes(o)) == seq![o],
{
    let b = option_bytes(o);
    lemma_parse_option_bytes(o, seq![]);
    assert(b + seq![] =~= b);
    assert(b.subrange(b.len() as int, b.len() as int) =~= Seq::<u8>::empty());
    assert(parse_options(Seq::<u8>::empty()) =~= Seq::<IcmpOptionView>::empty());
    assert(seq![o] + Seq::<IcmpOptionView>::empty() =~= seq![o]);
}

/// Decoding a solicitation body's encoding gives its address back.
proof fn lemma_solicitation_round_trip(sll: Option<Seq<u8>>)
    requires
        sll matches Some(mac) ==> mac.len() == 6,
    ensures
        parse_solicitation(solicitation_bytes(sll)) == Ok::<Option<Seq<u8>>, Error>(sll),
{
    let body = solicitation_bytes(sll);
    let opts = body.subrange(4, body.len() as int);
    match sll {
        Some(mac) => {
            let o = IcmpOptionView::SourceLinkLayerAddress(mac);
            assert(opts =~= option_bytes(o));
            lemma_single_option(o);
            assert(seq![o].drop_first() =~= Seq::<IcmpOptionView>::empty());
            assert(first_source_address(seq![o]) == Some(mac));
        },
        None => {
            assert(opts =~= Seq::<u8>::empty());
            assert(parse_options(opts) =~= Seq::<IcmpOptionView>::empty());
        },
    }
}

/// Decoding a packet's encoding gives the packet back.
pub proof fn lemma_packet_round_trip(p: IcmpPacketView)
    requires
        packet_wf(p),
    ensures
        parse_packet(packet_bytes(p)) == Ok::<IcmpPacketView, Error>(p),
{
    let s = packet_bytes(p);
    assert(s.subrange(2, 4) =~= be16(p.checksum));
    lemma_be16(s, 2, p.checksum);
    let body = s.subrange(4, s.len() as int);
    match p.content {
        IcmpContentView::RouterSolicitation(sll) => {
            assert(body =~= solicitation_bytes(sll));
            lemma_solicitation_round_trip(sll);
        },
        IcmpContentView::RouterAdvertisement(a) => {
            assert(body =~= advertisement_bytes(a));
            lemma_flag_byte(a.managed, a.other);
            assert(body.subrange(2, 4) =~= be16(a.router_lifetime));
            assert(body.subrange(4, 8) =~= be32(timer_value(a.reachable_timer)));
            assert(body.subrange(8, 12) =~= be32(timer_value(a.retrans_timer)));
            lemma_be16(body, 2, a.router_lifetime);
            lemma_be32(body, 4, timer_value(a.reachable_timer));
            lemma_be32(body, 8, timer_value(a.retrans_timer));
            let ob = options_bytes(a.options);
            assert(body.subrange(12, body.len() as int) =~= ob + seq![]);
            lemma_parse_options_bytes(a.options, seq![]);
            assert(parse_options(seq![]) =~= seq![]);
            assert(a.options + parse_options(seq![]) =~= a.options);
            assert(parse_advertisement(body) == Ok::<RouterAdvertisementView, Error>(a));
        },
    }
}

impl RouterSolicitation {
    /// Appends the wire form of the solicitation body.
    pub fn encode(&self, buf: &mut Vec<u8>)
        ensures
            final(buf)@ == old(buf)@ + solicitation_bytes(solicitation_view(*self)),
    {
        buf.push(0);
        buf.push(0);
        buf.push(0);
        buf.push(0);
        if let Some(addr) = self.source_link_layer_addr {
            buf.push(OptionCode::SourceLinkLayerAddress.to_u8());
            buf.push(1);
            addr.encode(buf);
        }
        assert(final(buf)@ =~= old(buf)@ + solicitation_bytes(solicitation_view(*self)));
    }

    /// Reads a solicitation body that starts at `pos`.
    pub fn decode(s: &[u8], pos: usize) -> (r: Result<RouterSolicitation, Error>)
        requires
            pos <= s@.len(),
        ensures
            match parse_solicitation(s@.subrange(pos as int, s@.len() as int)) {
                Ok(sll) => r matches Ok(sol) && solicitation_view(sol) == sll,
                Err(e) => r == Err::<RouterSolicitation, Error>(e),
            },
    {
        let n = s.len();
        if n - pos < 4 {
            return Err(Error::Eof);
        }
        let options = decode_options(s, pos + 4);
        let ghost views = option_views(options@);
        let ghost t = s@.subrange(pos as int, n as int);
        assert(t.subrange(4, t.len() as int) =~= s@.subrange(pos + 4, n as int));
        let m = options.len();
        assert(views.subrange(0, m as int) =~= views);
        let mut i: usize = 0;
        while i < m
            invariant
                i <= m,
                m == options@.len(),
                views == option_views(options@),
                parse_solicitation(s@.subrange(pos as int, s@.len() as int)) == Ok::<
                    Option<Seq<u8>>,
                    Error,
                >(first_source_address(views)),
                first_source_address(views) == first_source_address(views.subrange(
                    i as int,
                    m as int,
                )),
            decreases m - i,
        {
            let ghost rest = views.subrange(i as int, m as int);
            assert(rest[0] == options@[i as int]@);
            assert(rest.drop_first() =~= views.subrange(i + 1, m as int));
            if let IcmpOption::SourceLinkLayerAddress(addr) = &options[i] {
                assert(first_source_address(rest) == Some(addr.0@));
                return Ok(RouterSolicitation { source_link_layer_addr: Some(*addr) });
            }
            i = i + 1;
        }
        assert(views.subrange(m as int, m as int) =~= Seq::<IcmpOptionView>::empty());
        Ok(RouterSolicitation { source_link_layer_addr: None })
    }
}

/// Reads the options from `start` to the end, skipping those of other
/// types and stopping at one that is malformed.
pub fn decode_options(s: &[u8], start: usize) -> (r: Vec<IcmpOption>)
    requires
        start <= s@.len(),
    ensures
        option_views(r@) == parse_options(s@.subrange(start as int, s@.len() as int)),
{
    let n = s.len();
        let ghost whole = s@.subrange(start as int, n as int);
        let mut options: Vec<IcmpOption> = Vec::new();
        let mut at = start;
        while at < n
            invariant
                start <= at <= n,
                n == s@.len(),
                whole == s@.subrange(start as int, n as int),
                option_views(options@) + parse_options(s@.subrange(at as int, n as int))
                    == parse_options(whole),
            decreases n - at,
        {
            let (res, next) = IcmpOption::decode(s, at);
            proof {
                lemma_parse_options_step(s@, at as int);
            }
            match res {
                Ok(opt) => {
                    proof {
                        assert(option_views(options@.push(opt)) =~= option_views(options@).push(
                            opt@,
                        ));
                        assert(option_views(options@.push(opt)) + parse_options(
                            s@.subrange(next as int, n as int),
                        ) =~= option_views(options@) + parse_options(
                            s@.subrange(at as int, n as int),
                        ));
                    }
                    options.push(opt);
                    at = next;
                },
                Err(Error::UnknownOptionCode) => {
                    at = next;
                },
                Err(_) => {
                    proof {
                        lemma_parse_options_step(s@, n as int);
                        assert(option_views(options@) + seq![] =~= option_views(options@));
                    }
                    at = n;
                },
            }
        }
        proof {
            assert(s@.subrange(n as int, n as int) =~= seq![]);
            assert(parse_options(s@.subrange(at as int, n as int)) =~= seq![]);
            assert(option_views(options@) + seq![] =~= option_views(options@));
        }
        options
}

impl RouterAdvertisement {
    pub open spec fn wf(&self) -> bool {
        advertisement_wf(self@)
    }

    /// Appends the wire form of the advertisement body.
    pub fn encode(&self, buf: &mut Vec<u8>)
        requires
            self.wf(),
        ensures
            final(buf)@ == old(buf)@ + advertisement_bytes(self@),
    {
        buf.push(self.cur_hop_limit);
        buf.push(flags_of(self.managed, self.other));
        put_be16(buf, self.router_lifetime);
        put_be32(buf, timer_to_u32(self.reachable_timer));
        put_be32(buf, timer_to_u32(self.retrans_timer));
        let ghost start = buf@;
        let n = self.options.len();
        let mut i: usize = 0;
        while i < n
            invariant
                n == self.options@.len(),
                i <= n,
                self.wf(),
                buf@ == start + options_bytes(option_views(self.options@.subrange(0, i as int))),
            decreases n - i,
        {
            assert(option_views(self.options@)[i as int] == self.options@[i as int]@);
            assert(option_wf(self@.options[i as int]));
            self.options[i].encode(buf);
            assert(option_views(self.options@.subrange(0, i + 1)).drop_last() =~= option_views(
                self.options@.subrange(0, i as int),
            ));
            i = i + 1;
        }
        assert(option_views(self.options@.subrange(0, n as int)) =~= option_views(self.options@));
        assert(final(buf)@ =~= old(buf)@ + advertisement_bytes(self@));
    }

    /// Reads an advertisement body that starts at `pos`. Options of other
    /// types are skipped; reading stops at a malformed option, and what was
    /// read before it is kept.
    pub fn decode(s: &[u8], pos: usize) -> (r: Result<RouterAdvertisement, Error>)
        requires
            pos <= s@.len(),
        ensures
            match parse_advertisement(s@.subrange(pos as int, s@.len() as int)) {
                Ok(a) => r matches Ok(adv) && adv@ == a,
                Err(e) => r == Err::<RouterAdvertisement, Error>(e),
            },
    {
        let n = s.len();
        let ghost t = s@.subrange(pos as int, n as int);
        if n - pos < 12 {
            return Err(Error::Eof);
        }
        let cur_hop_limit = s[pos];
        let flags = s[pos + 1];
        let router_lifetime = get_be16(s, pos + 2);
        let reachable = get_be32(s, pos + 4);
        let retrans = get_be32(s, pos + 8);
        proof {
            lemma_read_shift(s@, pos as int, 2);
            lemma_read_shift(s@, pos as int, 4);
            lemma_read_shift(s@, pos as int, 8);
            assert(t[0] == cur_hop_limit && t[1] == flags);
        }
        let options = decode_options(s, pos + 12);
        assert(t.subrange(12, t.len() as int) =~= s@.subrange(pos + 12, n as int));
        Ok(
            RouterAdvertisement {
                cur_hop_limit,
                managed: flags & 0x80u8 != 0,
                other: flags & 0x40u8 != 0,
                router_lifetime,
                reachable_timer: timer_from_u32(reachable),
                retrans_timer: timer_from_u32(retrans),
                options,
            },
        )
    }
}

fn timer_to_u32(t: Option<u32>) -> (r: u32)
    ensures
        r == timer_value(t),
{
    match t {
        Some(v) => v,
        None => 0,
    }
}

fn timer_from_u32(v: u32) -> (r: Option<u32>)
    ensures
        r == timer_of(v),
{
    if v == 0 {
        None
    } else {
        Some(v)
    }
}

impl IcmpPacket {
    pub open spec fn wf(&self) -> bool {
        packet_wf(self@)
    }

    /// Appends the wire form of the packet.
    pub fn encode(&self, buf: &mut Vec<u8>)
        requires
            self.wf(),
        ensures
            final(buf)@ == old(buf)@ + packet_bytes(self@),
    {
        buf.push(self.typ.to_u8());
        buf.push(self.code);
        put_be16(buf, self.checksum);
        match &self.content {
            IcmpContent::RouterSolicitation(sol) => sol.encode(buf),
            IcmpContent::RouterAdvertisement(adv) => adv.encode(buf),
        }
        assert(final(buf)@ =~= old(buf)@ + packet_bytes(self@));
    }

    /// Reads a packet.
    pub fn decode(s: &[u8]) -> (r: Result<IcmpPacket, Error>)
        ensures
            match parse_packet(s@) {
                Ok(p) => r matches Ok(pkt) && pkt@ == p,
                Err(e) => r == Err::<IcmpPacket, Error>(e),
            },
    {
        let n = s.len();
        if n < 1 {
            return Err(Error::Eof);
        }
        let typ = match IcmpType::from_u8(s[0]) {
            Some(t) => t,
            None => return Err(Error::UnknownIcmpType),
        };
        if n < 4 {
            return Err(Error::Eof);
        }
        let code = s[1];
        let checksum = get_be16(s, 2);
        let content = match typ {
            IcmpType::RouterSolicitation => match RouterSolicitation::decode(s, 4) {
                Ok(sol) => IcmpContent::RouterSolicitation(sol),
                Err(e) => return Err(e),
            },
            IcmpType::RouterAdvertisement => match RouterAdvertisement::decode(s, 4) {
                Ok(adv) => IcmpContent::RouterAdvertisement(adv),
                Err(e) => return Err(e),
            },
        };
        Ok(IcmpPacket { typ, code, checksum, content })
    }
}

} // verus!
