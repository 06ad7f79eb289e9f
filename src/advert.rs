//! What the router advertises and what it accepts: the Router Advertisement
//! built from the configuration, the checks on a received Router
//! Solicitation (RFC 4861 §6.1.1), and the addresses the router gives itself.

use vstd::prelude::*;
use crate::control::{remaining, Prefix};
use crate::ndp::{
    option_views, option_wf, IcmpContent, IcmpContentView, IcmpOption, IcmpOptionView,
    IcmpPacket, IcmpPacketView, IcmpType, LinkLayerAddress, PrefixInformation,
    RecursiveDnsServer, RouterAdvertisement, RouterAdvertisementView, MAX_DNS_ADDRS,
};
use crate::scheduler::{RtrAdvIntervals, DNS_LIFETIME_SECS};
use crate::state::{addrs_increasing, has_addr, lemma_table_map_at, State};
use crate::wire::{be128, get_be128, lemma_be128_of_read, put_be128, put_be64, read_be128};

verus! {

/// The all-nodes link-local multicast group, `ff02::1`.
pub const MULTICAST_ALL_NODES: u128 = 0xff02_0000_0000_0000_0000_0000_0000_0001;

/// The all-routers link-local multicast group, `ff02::2`.
pub const MULTICAST_ALL_ROUTERS: u128 = 0xff02_0000_0000_0000_0000_0000_0000_0002;

/// The multicast groups of router discovery, as values of an address type.
pub trait Ipv6AddrExt {
    const MULTICAST_ALL_NODES: Self;
    const MULTICAST_ALL_ROUTERS: Self;
}

impl Ipv6AddrExt for u128 {
    const MULTICAST_ALL_NODES: u128 = MULTICAST_ALL_NODES;
    const MULTICAST_ALL_ROUTERS: u128 = MULTICAST_ALL_ROUTERS;
}

/// The unspecified address, `::`.
pub const UNSPECIFIED: u128 = 0;

/// The hop limit that advertisements announce.
pub const CUR_HOP_LIMIT: u8 = 64;

/// The daemon's configuration; intervals in seconds, an MTU of zero for
/// none advertised.
#[derive(Clone, Debug, PartialEq, Eq)]
pub struct Config {
    pub interface: String,
    pub mtu: u32,
    pub db: String,
    pub min_rtr_adv_interval: u64,
    pub max_rtr_adv_interval: u64,
    pub announce_on_exit: bool,
}

impl Config {
    /// The clamped interval bounds.
    pub fn intervals(&self) -> (r: RtrAdvIntervals)
        ensures
            r == RtrAdvIntervals::spec_from_config(self.min_rtr_adv_interval, self.max_rtr_adv_interval),
            r.wf(),
    {
        RtrAdvIntervals::from_config(self.min_rtr_adv_interval, self.max_rtr_adv_interval)
    }
}

/// `x`, or `u32::MAX` where it does not fit.
pub open spec fn saturate_u32(x: u64) -> u32 {
    if x > u32::MAX {
        u32::MAX
    } else {
        x as u32
    }
}

/// The Prefix Information option for a prefix at the moment `now`.
pub open spec fn prefix_info(p: Prefix, now: u64) -> PrefixInformation {
    PrefixInformation {
        prefix_length: p.prefix_length,
        on_link: true,
        autonomous: true,
        valid_lifetime: saturate_u32(remaining(p.valid_lifetime, now)),
        preferred_lifetime: saturate_u32(remaining(p.preferred_lifetime, now)),
        prefix: p.prefix,
    }
}

/// The Prefix Information options for the prefixes still valid at `now`,
/// in their order.
pub open spec fn prefix_options(s: Seq<Prefix>, now: u64) -> Seq<IcmpOptionView>
    decreases s.len(),
{
    if s.len() == 0 {
        seq![]
    } else {
        let init = prefix_options(s.drop_last(), now);
        if remaining(s.last().valid_lifetime, now) > 0 {
            init.push(IcmpOptionView::PrefixInformation(prefix_info(s.last(), now)))
        } else {
            init
        }
    }
}

/// The Recursive DNS Server option for the servers, none for an empty set;
/// one option holds at most `MAX_DNS_ADDRS`, the lowest.
pub open spec fn dns_options(addrs: Seq<u128>) -> Seq<IcmpOptionView> {
    if addrs.len() == 0 {
        seq![]
    } else if addrs.len() <= MAX_DNS_ADDRS {
        seq![IcmpOptionView::RecursiveDnsServer(DNS_LIFETIME_SECS, addrs)]
    } else {
        seq![IcmpOptionView::RecursiveDnsServer(DNS_LIFETIME_SECS, addrs.take(MAX_DNS_ADDRS as int))]
    }
}

/// The options of an advertisement: the source link-layer address; the MTU
/// unless it is zero; the DNS servers, if any; and, except when stopping,
/// one Prefix Information option per prefix still valid.
pub open spec fn advertised_options(
    mac: Seq<u8>,
    mtu: u32,
    dns: Seq<u128>,
    prefixes: Seq<Prefix>,
    now: u64,
    stopping: bool,
) -> Seq<IcmpOptionView> {
    seq![IcmpOptionView::SourceLinkLayerAddress(mac)] + (if mtu != 0 {
        seq![IcmpOptionView::Mtu(mtu)]
    } else {
        seq![]
    }) + dns_options(dns) + (if stopping {
        seq![]
    } else {
        prefix_options(prefixes, now)
    })
}

/// The advertisement for a configuration at the moment `now` (seconds since
/// the Unix epoch); a stopping router advertises a lifetime of zero.
pub open spec fn advertisement_for(
    state: State,
    mac: Seq<u8>,
    router_lifetime: u16,
    now: u64,
    stopping: bool,
) -> IcmpPacketView {
    IcmpPacketView {
        typ: IcmpType::RouterAdvertisement,
        code: 0,
        checksum: 0,
        content: IcmpContentView::RouterAdvertisement(
            RouterAdvertisementView {
                cur_hop_limit: CUR_HOP_LIMIT,
                managed: false,
                other: false,
                router_lifetime: if stopping {
                    0
                } else {
                    router_lifetime
                },
                reachable_timer: None,
                retrans_timer: None,
                options: advertised_options(
                    mac,
                    state.mtu,
                    state.dns_servers.addrs_seq(),
                    state.prefixes.entries_seq(),
                    now,
                    stopping,
                ),
            },
        ),
    }
}

proof fn lemma_prefix_options_wf(s: Seq<Prefix>, now: u64)
    ensures
        forall|i: int|
            0 <= i < prefix_options(s, now).len() ==> option_wf(
                #[trigger] prefix_options(s, now)[i],
            ),
    decreases s.len(),
{
    if s.len() > 0 {
        let init = prefix_options(s.drop_last(), now);
        lemma_prefix_options_wf(s.drop_last(), now);
        assert forall|i: int| 0 <= i < prefix_options(s, now).len() implies option_wf(
            #[trigger] prefix_options(s, now)[i],
        ) by {
            if i < init.len() {
                assert(prefix_options(s, now)[i] == init[i]);
            }
        }
    }
}

fn saturating_u32(x: u64) -> (r: u32)
    ensures
        r == saturate_u32(x),
{
    if x > u32::MAX as u64 {
        u32::MAX
    } else {
        x as u32
    }
}

/// Builds the advertisement for the configuration at the moment `now`.
pub fn build_advertisement(
    state: &State,
    mac: LinkLayerAddress,
    intervals: &RtrAdvIntervals,
    now: u64,
    stopping: bool,
) -> (r: IcmpPacket)
    ensures
        r.wf(),
        r@ == advertisement_for(*state, mac.0@, intervals.spec_router_lifetime(), now, stopping),
{
    let mut options: Vec<IcmpOption> = Vec::new();
    options.push(IcmpOption::SourceLinkLayerAddress(mac));
    if state.mtu != 0 {
        options.push(IcmpOption::Mtu(state.mtu));
    }
    let dns = state.dns_servers.addrs();
    let ghost base = option_views(options@);
    if dns.len() > 0 {
        let count = if dns.len() > MAX_DNS_ADDRS {
            MAX_DNS_ADDRS
        } else {
            dns.len()
        };
        let mut addrs: Vec<u128> = Vec::new();
        let mut i: usize = 0;
        while i < count
            invariant
                i <= count,
                count <= dns@.len(),
                addrs@ == dns@.subrange(0, i as int),
            decreases count - i,
        {
            addrs.push(dns[i]);
            assert(dns@.subrange(0, i + 1) =~= dns@.subrange(0, i as int).push(dns@[i as int]));
            i = i + 1;
        }
        assert(dns@.subrange(0, count as int) =~= dns@.take(count as int));
        assert(dns@.len() <= MAX_DNS_ADDRS ==> dns@.take(count as int) =~= dns@);
        options.push(
            IcmpOption::RecursiveDnsServer(RecursiveDnsServer { lifetime: DNS_LIFETIME_SECS, addrs }),
        );
    }
    assert(option_views(options@) =~= base + dns_options(dns@));
    let ghost head = option_views(options@);
    if !stopping {
        let entries = state.prefixes.entries();
        let n = entries.len();
        let mut i: usize = 0;
        while i < n
            invariant
                i <= n,
                n == entries@.len(),
                option_views(options@) == head + prefix_options(entries@.subrange(0, i as int), now),
            decreases n - i,
        {
            let p = entries[i];
            assert(entries@.subrange(0, i + 1).drop_last() =~= entries@.subrange(0, i as int));
            if p.valid_lifetime.remaining_at(now) > 0 {
                let info = PrefixInformation {
                    prefix_length: p.prefix_length,
                    on_link: true,
                    autonomous: true,
                    valid_lifetime: saturating_u32(p.valid_lifetime.remaining_at(now)),
                    preferred_lifetime: saturating_u32(p.preferred_lifetime.remaining_at(now)),
                    prefix: p.prefix,
                };
                let ghost before = options@;
                options.push(IcmpOption::PrefixInformation(info));
                assert(info == prefix_info(p, now));
                assert(option_views(options@) =~= option_views(before).push(
                    IcmpOptionView::PrefixInformation(info),
                ));
                assert(option_views(options@) =~= head + prefix_options(
                    entries@.subrange(0, i + 1),
                    now,
                ));
            }
            i = i + 1;
        }
        assert(entries@.subrange(0, n as int) =~= entries@);
    } else {
        assert(option_views(options@) =~= head + seq![]);
    }
    let router_lifetime = if stopping {
        0
    } else {
        intervals.router_lifetime()
    };
    let r = IcmpPacket {
        typ: IcmpType::RouterAdvertisement,
        code: 0,
        checksum: 0,
        content: IcmpContent::RouterAdvertisement(
            RouterAdvertisement {
                cur_hop_limit: CUR_HOP_LIMIT,
                managed: false,
                other: false,
                router_lifetime,
                reachable_timer: None,
                retrans_timer: None,
                options,
            },
        ),
    };
    proof {
        let opts = advertised_options(
            mac.0@,
            state.mtu,
            state.dns_servers.addrs_seq(),
            state.prefixes.entries_seq(),
            now,
            stopping,
        );
        assert(option_views(options@) =~= opts);
        lemma_prefix_options_wf(state.prefixes.entries_seq(), now);
        let tail = prefix_options(state.prefixes.entries_seq(), now);
        assert forall|i: int| 0 <= i < opts.len() implies option_wf(#[trigger] opts[i]) by {
            let head_len = opts.len() - tail.len();
            if !stopping && i >= head_len {
                assert(opts[i] == tail[i - head_len]);
            }
        }
    }
    r
}

/// A received Router Solicitation is acted on: its code is zero, and a
/// solicitation from `::` carries no source link-layer address.
pub open spec fn solicitation_valid(src: u128, packet: IcmpPacketView) -> bool {
    &&& packet.code == 0
    &&& match packet.content {
        IcmpContentView::RouterSolicitation(sll) => src == UNSPECIFIED ==> sll is None,
        IcmpContentView::RouterAdvertisement(_) => false,
    }
}

/// Whether a packet received from `src` is a Router Solicitation to answer.
pub fn router_solicit_is_valid(src: u128, packet: &IcmpPacket) -> (r: bool)
    ensures
        r == solicitation_valid(src, packet@),
{
    if packet.code != 0 {
        return false;
    }
    match &packet.content {
        IcmpContent::RouterSolicitation(sol) => {
            if src == UNSPECIFIED {
                sol.source_link_layer_addr.is_none()
            } else {
                true
            }
        },
        _ => false,
    }
}

/// Whether an address lies in `fe80::/16`, as the link-local addresses of
/// an interface do.
pub fn is_link_local(addr: u128) -> (r: bool)
    ensures
        r == (be128(addr)[0] == 0xfe && be128(addr)[1] == 0x80),
{
    let mut octets: Vec<u8> = Vec::new();
    put_be128(&mut octets, addr);
    assert(octets@ =~= be128(addr));
    octets[0] == 0xfe && octets[1] == 0x80
}

/// The EUI-64 interface identifier of a hardware address: the
/// universal/local bit flipped and `ff fe` in the middle.
pub open spec fn interface_id(mac: Seq<u8>) -> Seq<u8> {
    seq![mac[0] ^ 2u8, mac[1], mac[2], 0xffu8, 0xfeu8, mac[3], mac[4], mac[5]]
}

/// The router's own address in a prefix: the first eight bytes of the
/// prefix, then the interface identifier of `mac`.
pub open spec fn host_addr(prefix: u128, mac: Seq<u8>) -> u128 {
    read_be128(be128(prefix).take(8) + interface_id(mac), 0)
}

/// The router's own address in a prefix: the first eight bytes of the
/// prefix, then the interface identifier of `mac`.
pub fn generate_addr(prefix: u128, mac: [u8; 6]) -> (r: u128)
    ensures
        be128(r) == be128(prefix).take(8) + interface_id(mac@),
        r == host_addr(prefix, mac@),
{
    let mut octets: Vec<u8> = Vec::new();
    put_be64(&mut octets, (prefix >> 64u128) as u64);
    octets.push(mac[0] ^ 2u8);
    octets.push(mac[1]);
    octets.push(mac[2]);
    octets.push(0xff);
    octets.push(0xfe);
    octets.push(mac[3]);
    octets.push(mac[4]);
    octets.push(mac[5]);
    let r = get_be128(octets.as_slice(), 0);
    proof {
        assert(octets@ =~= be128(prefix).take(8) + interface_id(mac@));
        lemma_be128_of_read(octets@);
    }
    r
}

/// An address for the router to hold, with its prefix length and the
/// seconds left of its lifetimes.
#[derive(Clone, Copy, Debug, PartialEq, Eq, Structural)]
pub struct AddrAssignment {
    pub addr: u128,
    pub prefix_length: u8,
    pub preferred_secs: u64,
    pub valid_secs: u64,
}

/// The address the router holds in a prefix at the moment `now`.
pub open spec fn assignment_for(p: Prefix, mac: Seq<u8>, now: u64) -> AddrAssignment {
    AddrAssignment {
        addr: host_addr(p.prefix, mac),
        prefix_length: p.prefix_length,
        preferred_secs: remaining(p.preferred_lifetime, now),
        valid_secs: remaining(p.valid_lifetime, now),
    }
}

/// The addresses the router holds, one per advertised prefix, in the order
/// of the prefixes.
pub fn address_assignments(state: &State, mac: [u8; 6], now: u64) -> (r: Vec<AddrAssignment>)
    ensures
        r@.len() == state.prefixes.entries_seq().len(),
        forall|i: int|
            0 <= i < r@.len() ==> #[trigger] r@[i] == assignment_for(
                state.prefixes.entries_seq()[i],
                mac@,
                now,
            ),
{
    let entries = state.prefixes.entries();
    let n = entries.len();
    let mut out: Vec<AddrAssignment> = Vec::new();
    let mut i: usize = 0;
    while i < n
        invariant
            i <= n,
            n == entries@.len(),
            entries@ == state.prefixes.entries_seq(),
            out@.len() == i,
            forall|j: int| 0 <= j < i ==> #[trigger] out@[j] == assignment_for(entries@[j], mac@, now),
        decreases n - i,
    {
        let p = entries[i];
        out.push(
            AddrAssignment {
                addr: generate_addr(p.prefix, mac),
                prefix_length: p.prefix_length,
                preferred_secs: p.preferred_lifetime.remaining_at(now),
                valid_secs: p.valid_lifetime.remaining_at(now),
            },
        );
        i = i + 1;
    }
    out
}

/// The prefix that an option announces, zero for an option of another kind.
pub open spec fn announced_prefix(o: IcmpOptionView) -> u128 {
    match o {
        IcmpOptionView::PrefixInformation(p) => p.prefix,
        _ => 0,
    }
}

/// Each option of `prefix_options(s, now)` is that of an entry of `s` still
/// valid at `now`.
proof fn lemma_prefix_options_from_entries(s: Seq<Prefix>, now: u64)
    ensures
        forall|j: int|
            0 <= j < prefix_options(s, now).len() ==> exists|i: int|
                0 <= i < s.len() && remaining(s[i].valid_lifetime, now) > 0
                    && #[trigger] prefix_options(s, now)[j] == IcmpOptionView::PrefixInformation(
                    prefix_info(s[i], now),
                ),
    decreases s.len(),
{
    if s.len() > 0 {
        let init = s.drop_last();
        let pi = prefix_options(init, now);
        let po = prefix_options(s, now);
        lemma_prefix_options_from_entries(init, now);
        assert forall|j: int| 0 <= j < po.len() implies exists|i: int|
            0 <= i < s.len() && remaining(s[i].valid_lifetime, now) > 0 && #[trigger] po[j]
                == IcmpOptionView::PrefixInformation(prefix_info(s[i], now)) by {
            if j < pi.len() {
                assert(po[j] == pi[j]);
                let i = choose|i: int|
                    0 <= i < init.len() && remaining(init[i].valid_lifetime, now) > 0
                        && #[trigger] pi[j] == IcmpOptionView::PrefixInformation(
                        prefix_info(init[i], now),
                    );
                assert(s[i] == init[i]);
            } else {
                assert(s[s.len() - 1] == s.last());
            }
        }
    }
}

/// Each entry of `s` still valid at `now` has its option in
/// `prefix_options(s, now)`.
proof fn lemma_prefix_options_cover(s: Seq<Prefix>, now: u64, i: int)
    requires
        0 <= i < s.len(),
        remaining(s[i].valid_lifetime, now) > 0,
    ensures
        exists|j: int|
            0 <= j < prefix_options(s, now).len() && prefix_options(s, now)[j]
                == IcmpOptionView::PrefixInformation(prefix_info(s[i], now)),
    decreases s.len(),
{
    let init = s.drop_last();
    let pi = prefix_options(init, now);
    let po = prefix_options(s, now);
    if i < init.len() {
        assert(init[i] == s[i]);
        lemma_prefix_options_cover(init, now, i);
        let j = choose|j: int|
            0 <= j < pi.len() && pi[j] == IcmpOptionView::PrefixInformation(
                prefix_info(init[i], now),
            );
        assert(po[j] == pi[j]);
    } else {
        assert(po[pi.len() as int] == IcmpOptionView::PrefixInformation(prefix_info(s[i], now)));
    }
}

/// For entries in increasing order of address, the options announce
/// increasing prefixes.
proof fn lemma_prefix_options_increasing(s: Seq<Prefix>, now: u64)
    requires
        addrs_increasing(s),
    ensures
        forall|j: int, k: int|
            0 <= j < k < prefix_options(s, now).len() ==> announced_prefix(
                #[trigger] prefix_options(s, now)[j],
            ) < announced_prefix(#[trigger] prefix_options(s, now)[k]),
    decreases s.len(),
{
    if s.len() > 0 {
        let init = s.drop_last();
        let pi = prefix_options(init, now);
        let po = prefix_options(s, now);
        assert(addrs_increasing(init));
        lemma_prefix_options_increasing(init, now);
        lemma_prefix_options_from_entries(init, now);
        assert forall|j: int, k: int| 0 <= j < k < po.len() implies announced_prefix(
            #[trigger] po[j],
        ) < announced_prefix(#[trigger] po[k]) by {
            assert(po[j] == pi[j]);
            if k < pi.len() {
                assert(po[k] == pi[k]);
            } else {
                let i = choose|i: int|
                    0 <= i < init.len() && remaining(init[i].valid_lifetime, now) > 0
                        && #[trigger] pi[j] == IcmpOptionView::PrefixInformation(
                        prefix_info(init[i], now),
                    );
                assert(s[i] == init[i]);
                assert(s[i].prefix < s[s.len() - 1].prefix);
            }
        }
    }
}

/// A prefix of the table whose valid lifetime has not run out at `now`
/// appears in the advertisement in exactly one Prefix Information option,
/// which carries its lifetimes left at `now`.
pub proof fn lemma_prefix_advertised(state: State, mac: Seq<u8>, now: u64, p: Prefix)
    requires
        state.prefixes.wf(),
        state.prefixes@.contains_key(p.prefix),
        state.prefixes@[p.prefix] == p,
        remaining(p.valid_lifetime, now) > 0,
    ensures
        ({
            let opts = advertised_options(
                mac,
                state.mtu,
                state.dns_servers.addrs_seq(),
                state.prefixes.entries_seq(),
                now,
                false,
            );
            &&& exists|j: int|
                0 <= j < opts.len() && opts[j] == IcmpOptionView::PrefixInformation(
                    prefix_info(p, now),
                )
            &&& forall|j: int|
                0 <= j < opts.len() && (#[trigger] opts[j]) is PrefixInformation && announced_prefix(
                    opts[j],
                ) == p.prefix ==> opts[j] == IcmpOptionView::PrefixInformation(prefix_info(p, now))
            &&& forall|j: int, k: int|
                0 <= j < opts.len() && 0 <= k < opts.len() && (#[trigger] opts[j]) is PrefixInformation
                    && (#[trigger] opts[k]) is PrefixInformation && announced_prefix(opts[j])
                    == p.prefix && announced_prefix(opts[k]) == p.prefix ==> j == k
        }),
{
    let s = state.prefixes.entries_seq();
    let tail = prefix_options(s, now);
    let opts = advertised_options(mac, state.mtu, state.dns_servers.addrs_seq(), s, now, false);
    let head = seq![IcmpOptionView::SourceLinkLayerAddress(mac)] + (if state.mtu != 0 {
        seq![IcmpOptionView::Mtu(state.mtu)]
    } else {
        seq![]
    }) + dns_options(state.dns_servers.addrs_seq());
    assert(opts == head + tail);
    assert forall|j: int| 0 <= j < head.len() implies !(#[trigger] head[j] is PrefixInformation) by {}
    assert(has_addr(s, p.prefix));
    let i = choose|i: int| 0 <= i < s.len() && s[i].prefix == p.prefix;
    lemma_table_map_at(s, i);
    assert(s[i] == p);
    lemma_prefix_options_cover(s, now, i);
    lemma_prefix_options_from_entries(s, now);
    lemma_prefix_options_increasing(s, now);
    let j0 = choose|j: int|
        0 <= j < tail.len() && tail[j] == IcmpOptionView::PrefixInformation(prefix_info(s[i], now));
    assert(opts[head.len() + j0] == tail[j0]);
    assert forall|j: int|
        0 <= j < opts.len() && (#[trigger] opts[j]) is PrefixInformation && announced_prefix(opts[j])
            == p.prefix implies opts[j] == IcmpOptionView::PrefixInformation(
        prefix_info(p, now),
    ) by {
        if j < head.len() {
            assert(opts[j] == head[j]);
        } else {
            assert(opts[j] == tail[j - head.len()]);
            let i2 = choose|i2: int|
                0 <= i2 < s.len() && remaining(s[i2].valid_lifetime, now) > 0
                    && #[trigger] tail[j - head.len()] == IcmpOptionView::PrefixInformation(
                    prefix_info(s[i2], now),
                );
            assert(s[i2].prefix == p.prefix);
            assert(i2 == i) by {
                if i2 < i {
                    assert(s[i2].prefix < s[i].prefix);
                } else if i2 > i {
                    assert(s[i].prefix < s[i2].prefix);
                }
            }
        }
    }
    assert forall|j: int, k: int|
        0 <= j < opts.len() && 0 <= k < opts.len() && (#[trigger] opts[j]) is PrefixInformation
            && (#[trigger] opts[k]) is PrefixInformation && announced_prefix(opts[j]) == p.prefix
            && announced_prefix(opts[k]) == p.prefix implies j == k by {
        if j < head.len() {
            assert(opts[j] == head[j]);
        } else if k < head.len() {
            assert(opts[k] == head[k]);
        } else {
            assert(opts[j] == tail[j - head.len()]);
            assert(opts[k] == tail[k - head.len()]);
            if j < k {
                assert(announced_prefix(tail[j - head.len()]) < announced_prefix(
                    tail[k - head.len()],
                ));
            } else if k < j {
                assert(announced_prefix(tail[k - head.len()]) < announced_prefix(
                    tail[j - head.len()],
                ));
            }
        }
    }
}

} // verus!
