use rand::rngs::SmallRng;
use rand::SeedableRng;
use rsadv::advert::{
    address_assignments, build_advertisement, generate_addr, is_link_local,
    router_solicit_is_valid, AddrAssignment, Config, Ipv6AddrExt, MULTICAST_ALL_NODES,
};
use rsadv::control::{DnsServer, Lifetime, Prefix, Request};
use rsadv::ndp::{
    IcmpContent, IcmpOption, IcmpPacket, LinkLayerAddress, PrefixInformation, RecursiveDnsServer,
};
use rsadv::scheduler::{RaScheduler, RtrAdvIntervals, SolicitAction};
use rsadv::state::State;

const MAC: [u8; 6] = [0x52, 0x54, 0x00, 0x12, 0x34, 0x56];
const DOC_PREFIX: u128 = 0x2001_0db8_0000_0000_0000_0000_0000_0000;

fn add_prefix(state: &mut State, addr: u128, len: u8, valid: Lifetime) {
    state.apply(Request::AddPrefix(Prefix {
        prefix: addr,
        prefix_length: len,
        preferred_lifetime: valid,
        valid_lifetime: valid,
    }));
}

fn options_of(p: &IcmpPacket) -> (u16, Vec<IcmpOption>) {
    match &p.content {
        IcmpContent::RouterAdvertisement(a) => (a.router_lifetime, a.options.clone()),
        _ => panic!("not an advertisement"),
    }
}

fn intervals(min: u64, max: u64) -> RtrAdvIntervals {
    RtrAdvIntervals::from_config(min, max)
}

#[test]
fn interval_defaults_and_clamps() {
    assert_eq!(intervals(0, 1800), RtrAdvIntervals { min_ms: 600_000, max_ms: 1_800_000 });
    assert_eq!(intervals(0, 600), RtrAdvIntervals { min_ms: 200_000, max_ms: 600_000 });
    assert_eq!(intervals(0, 9), RtrAdvIntervals { min_ms: 3_000, max_ms: 9_000 });
    assert_eq!(intervals(0, 5), RtrAdvIntervals { min_ms: 5_000, max_ms: 5_000 });
    assert_eq!(intervals(1, 2), RtrAdvIntervals { min_ms: 3_000, max_ms: 4_000 });
    assert_eq!(intervals(100, 100_000), RtrAdvIntervals { min_ms: 100_000, max_ms: 1_800_000 });
    assert_eq!(intervals(1500, 1800), RtrAdvIntervals { min_ms: 1_350_000, max_ms: 1_800_000 });
    assert_eq!(intervals(u64::MAX, 10), RtrAdvIntervals { min_ms: 7_500, max_ms: 10_000 });
}

#[test]
fn clamped_intervals_obey_the_rfc() {
    for max in [0u64, 3, 4, 9, 10, 100, 1800, 5000] {
        for min in [1u64, 2, 3, 4, 7, 100, 1000, 1800, 99999] {
            let r = intervals(min, max);
            assert!(3000 <= r.min_ms);
            assert!(r.min_ms * 4 <= r.max_ms * 3);
            assert!(r.max_ms <= 1_800_000);
        }
        if max >= 9 {
            let r = intervals(0, max);
            assert!(3000 <= r.min_ms && r.min_ms * 4 <= r.max_ms * 3);
        }
    }
}

#[test]
fn default_interval_draws_stay_in_range() {
    let config = Config {
        interface: "eth0".to_string(),
        mtu: 0,
        db: "db".to_string(),
        min_rtr_adv_interval: 0,
        max_rtr_adv_interval: 1800,
        announce_on_exit: true,
    };
    let iv = config.intervals();
    assert_eq!(iv.min_ms, 600_000);
    let mut rng = SmallRng::seed_from_u64(7);
    let mut s = RaScheduler::new(iv, 0);
    s.initial_ras_sent = 3;
    let mut gaps = Vec::new();
    for _ in 0..200 {
        let before = s.next_multicast_ms;
        s.schedule_next(&mut rng);
        let gap = s.next_multicast_ms - before;
        assert!((600_000..=1_800_000).contains(&gap));
        gaps.push(gap);
    }
    gaps.dedup();
    assert!(gaps.len() > 1);
}

#[test]
fn multicast_spacing() {
    let mut s = RaScheduler::new(intervals(0, 1800), 0);
    let mut rng = SmallRng::seed_from_u64(1);
    for _ in 0..50 {
        s.schedule_next(&mut rng);
        let gap = s.next_multicast_ms - s.last_multicast_ms;
        assert!((3_000..=1_800_000).contains(&gap));
        s.solicited(s.last_multicast_ms + 100, 300, true);
        assert!(s.next_multicast_ms - s.last_multicast_ms >= 3_000);
    }
}

#[test]
fn initial_burst_is_capped() {
    let mut s = RaScheduler::new(intervals(0, 1800), 0);
    s.multicast_sent(1_000_000);
    s.multicast_sent(1_000_000);
    s.multicast_sent(1_000_000);
    s.multicast_sent(1_000_000);
    assert_eq!(s.next_multicast_ms - s.last_multicast_ms, 1_000_000);
    s.new_config(5_000_000);
    assert_eq!(s.next_multicast_ms, 5_000_000);
    for _ in 0..3 {
        s.multicast_sent(1_700_000);
        assert_eq!(s.next_multicast_ms - s.last_multicast_ms, 16_000);
    }
    s.multicast_sent(1_700_000);
    assert_eq!(s.next_multicast_ms - s.last_multicast_ms, 1_700_000);
}

#[test]
fn solicitation_from_a_host_is_answered_soon() {
    let rs = [133u8, 0, 0, 0, 0, 0, 0, 0];
    let packet = IcmpPacket::decode(&rs).unwrap();
    let src: u128 = 0xfe80_0000_0000_0000_0000_0000_0000_0001;
    assert!(router_solicit_is_valid(src, &packet));
    let mut s = RaScheduler::new(intervals(0, 1800), 0);
    s.multicast_sent(1_000_000);
    let now = 10_000;
    assert_eq!(s.solicited(now, 499, false), SolicitAction::Unicast(10_499));
    let mut rng = SmallRng::seed_from_u64(3);
    for _ in 0..100 {
        match s.solicit(&mut rng, now, false) {
            SolicitAction::Unicast(at) => assert!(at >= now && at < now + 500),
            other => panic!("unexpected {:?}", other),
        }
    }
}

#[test]
fn solicitation_after_the_next_multicast_is_discarded() {
    let mut s = RaScheduler::new(intervals(0, 1800), 0);
    s.initial_ras_sent = 3;
    s.multicast_sent(700_000);
    let before = s;
    assert_eq!(s.solicited(699_800, 300, false), SolicitAction::Discard);
    assert_eq!(s, before);
}

#[test]
fn solicitation_from_unspecified_moves_the_multicast() {
    let mut s = RaScheduler::new(intervals(0, 1800), 0);
    s.initial_ras_sent = 3;
    s.multicast_sent(700_000);
    assert_eq!(s.solicited(1_000, 200, true), SolicitAction::Deferred);
    assert_eq!(s.next_multicast_ms, 700_000 + 2_000 + 200);
    assert_eq!(s.solicited(600_000, 100, true), SolicitAction::Deferred);
    assert_eq!(s.next_multicast_ms, 702_200 + 100);
}

#[test]
fn solicitation_with_source_address_from_unspecified_is_dropped() {
    let rs = [133u8, 0, 0, 0, 0, 0, 0, 0, 1, 1, 1, 2, 3, 4, 5, 6];
    let packet = IcmpPacket::decode(&rs).unwrap();
    assert!(!router_solicit_is_valid(0, &packet));
    assert!(router_solicit_is_valid(0xfe80_0000_0000_0000_0000_0000_0000_0001, &packet));
    let plain = IcmpPacket::decode(&rs[..8]).unwrap();
    assert!(router_solicit_is_valid(0, &plain));
    let mut mtu_first = rs[..8].to_vec();
    mtu_first.extend([5, 1, 0, 0, 0, 0, 5, 0]);
    mtu_first.extend(&rs[8..]);
    assert!(!router_solicit_is_valid(0, &IcmpPacket::decode(&mtu_first).unwrap()));
    let mut bad_code = rs[..8].to_vec();
    bad_code[1] = 1;
    assert!(!router_solicit_is_valid(5, &IcmpPacket::decode(&bad_code).unwrap()));
}

#[test]
fn advertisement_carries_the_configuration() {
    let mut state = State::new(1500);
    add_prefix(&mut state, DOC_PREFIX + (1u128 << 80), 64, Lifetime::Duration(3600));
    add_prefix(&mut state, DOC_PREFIX, 64, Lifetime::Until(10_000));
    add_prefix(&mut state, 0xfd00_0000_0000_0000_0000_0000_0000_0000, 48, Lifetime::Until(100));
    state.apply(Request::AddDnsServer(DnsServer { addr: 9, lifetime: Lifetime::Duration(1) }));
    state.apply(Request::AddDnsServer(DnsServer { addr: 3, lifetime: Lifetime::Duration(1) }));
    let p = build_advertisement(&state, LinkLayerAddress(MAC), &intervals(0, 1800), 1_000, false);
    let (lifetime, options) = options_of(&p);
    assert_eq!(lifetime, 5400);
    let pi = |prefix, secs| {
        IcmpOption::PrefixInformation(PrefixInformation {
            prefix_length: 64,
            on_link: true,
            autonomous: true,
            valid_lifetime: secs,
            preferred_lifetime: secs,
            prefix,
        })
    };
    assert_eq!(
        options,
        vec![
            IcmpOption::SourceLinkLayerAddress(LinkLayerAddress(MAC)),
            IcmpOption::Mtu(1500),
            IcmpOption::RecursiveDnsServer(RecursiveDnsServer { lifetime: 3600, addrs: vec![3, 9] }),
            pi(DOC_PREFIX, 9_000),
            pi(DOC_PREFIX + (1u128 << 80), 3600),
        ]
    );
    let mut bytes = Vec::new();
    p.encode(&mut bytes);
    assert_eq!(IcmpPacket::decode(&bytes).unwrap(), p);
}

#[test]
fn added_prefix_is_advertised_for_an_hour() {
    let mut state = State::new(0);
    add_prefix(&mut state, 0, 64, Lifetime::Duration(3600));
    let p = build_advertisement(&state, LinkLayerAddress(MAC), &intervals(0, 600), 0, false);
    let (lifetime, options) = options_of(&p);
    assert_eq!(lifetime, 1800);
    assert_eq!(options.len(), 2);
    assert_eq!(
        options[1],
        IcmpOption::PrefixInformation(PrefixInformation {
            prefix_length: 64,
            on_link: true,
            autonomous: true,
            valid_lifetime: 3600,
            preferred_lifetime: 3600,
            prefix: 0,
        })
    );
}

#[test]
fn long_lifetimes_saturate() {
    let mut state = State::new(0);
    add_prefix(&mut state, DOC_PREFIX, 64, Lifetime::Duration(1 << 40));
    let p = build_advertisement(&state, LinkLayerAddress(MAC), &intervals(0, 1800), 0, false);
    match &options_of(&p).1[1] {
        IcmpOption::PrefixInformation(pi) => assert_eq!(pi.valid_lifetime, u32::MAX),
        other => panic!("unexpected {:?}", other),
    }
}

#[test]
fn final_advertisement_withdraws_the_router() {
    let mut state = State::new(0);
    add_prefix(&mut state, DOC_PREFIX, 64, Lifetime::Duration(3600));
    let p = build_advertisement(&state, LinkLayerAddress(MAC), &intervals(0, 1800), 0, true);
    let (lifetime, options) = options_of(&p);
    assert_eq!(lifetime, 0);
    assert_eq!(options, vec![IcmpOption::SourceLinkLayerAddress(LinkLayerAddress(MAC))]);
    let mut bytes = Vec::new();
    p.encode(&mut bytes);
    assert_eq!(&bytes[6..8], &[0, 0]);
}

#[test]
fn many_dns_servers_fill_one_option() {
    let mut state = State::new(0);
    for a in 0..200u128 {
        state.apply(Request::AddDnsServer(DnsServer { addr: a, lifetime: Lifetime::Duration(1) }));
    }
    let p = build_advertisement(&state, LinkLayerAddress(MAC), &intervals(0, 1800), 0, false);
    match &options_of(&p).1[1] {
        IcmpOption::RecursiveDnsServer(r) => {
            assert_eq!(r.addrs.len(), 127);
            assert_eq!(r.addrs[126], 126);
        }
        other => panic!("unexpected {:?}", other),
    }
}

#[test]
fn one_record_per_address() {
    let mut state = State::new(0);
    add_prefix(&mut state, DOC_PREFIX, 64, Lifetime::Duration(3600));
    add_prefix(&mut state, DOC_PREFIX, 56, Lifetime::Duration(60));
    add_prefix(&mut state, 5, 128, Lifetime::Duration(60));
    assert_eq!(state.prefixes.len(), 2);
    assert_eq!(state.prefixes.entries()[1].prefix_length, 56);
    assert_eq!(state.prefixes.entries()[0].prefix, 5);
    state.apply(Request::RemovePrefix(Prefix {
        prefix: DOC_PREFIX,
        prefix_length: 0,
        preferred_lifetime: Lifetime::Duration(0),
        valid_lifetime: Lifetime::Duration(0),
    }));
    assert_eq!(state.prefixes.len(), 1);
    state.apply(Request::AddDnsServer(DnsServer { addr: 7, lifetime: Lifetime::Duration(1) }));
    state.apply(Request::AddDnsServer(DnsServer { addr: 7, lifetime: Lifetime::Duration(2) }));
    assert_eq!(state.dns_servers.addrs(), &vec![7]);
    state.apply(Request::RemoveDnsServer(DnsServer { addr: 7, lifetime: Lifetime::Duration(2) }));
    assert_eq!(state.dns_servers.len(), 0);
}

#[test]
fn reaping_twice_changes_nothing() {
    let mut state = State::new(0);
    add_prefix(&mut state, 1, 64, Lifetime::Until(500));
    add_prefix(&mut state, 2, 64, Lifetime::Until(2_000));
    add_prefix(&mut state, 3, 64, Lifetime::Duration(700));
    add_prefix(&mut state, 4, 64, Lifetime::Duration(0));
    state.apply(Request::AddDnsServer(DnsServer { addr: 8, lifetime: Lifetime::Duration(1) }));
    assert_eq!(state.reap(1_000), Some(700));
    let first = state.snapshot();
    assert_eq!(first.prefixes.iter().map(|p| p.prefix).collect::<Vec<_>>(), vec![2, 3]);
    assert_eq!(first.dns_servers, vec![8]);
    assert_eq!(state.reap(1_000), Some(700));
    let second = state.snapshot();
    assert_eq!(first.prefixes, second.prefixes);
    assert_eq!(first.dns_servers, second.dns_servers);
    assert_eq!(state.reap(3_000), Some(700));
    let mut empty = State::new(0);
    assert_eq!(empty.reap(0), None);
}

#[test]
fn router_addresses() {
    assert_eq!(
        generate_addr(DOC_PREFIX + 0xdead, MAC),
        0x2001_0db8_0000_0000_5054_00ff_fe12_3456
    );
    assert!(is_link_local(0xfe80_0000_0000_0000_0000_0000_0000_0001));
    assert!(!is_link_local(0xfe81_0000_0000_0000_0000_0000_0000_0001));
    assert!(!is_link_local(MULTICAST_ALL_NODES));
    assert_eq!(<u128 as Ipv6AddrExt>::MULTICAST_ALL_NODES, 0xff02_0000_0000_0000_0000_0000_0000_0001);
    assert_eq!(<u128 as Ipv6AddrExt>::MULTICAST_ALL_ROUTERS, 0xff02_0000_0000_0000_0000_0000_0000_0002);
}

#[test]
fn router_holds_an_address_per_prefix() {
    let mut state = State::new(0);
    add_prefix(&mut state, DOC_PREFIX, 64, Lifetime::Until(5_000));
    add_prefix(&mut state, 0xfd00_0000_0000_0001_0000_0000_0000_0000, 64, Lifetime::Duration(3600));
    assert_eq!(
        address_assignments(&state, MAC, 1_000),
        vec![
            AddrAssignment {
                addr: 0x2001_0db8_0000_0000_5054_00ff_fe12_3456,
                prefix_length: 64,
                preferred_secs: 4_000,
                valid_secs: 4_000,
            },
            AddrAssignment {
                addr: 0xfd00_0000_0000_0001_5054_00ff_fe12_3456,
                prefix_length: 64,
                preferred_secs: 3600,
                valid_secs: 3600,
            },
        ]
    );
}
