use rsadv::ndp::{
    Error, IcmpContent, IcmpOption, IcmpPacket, IcmpType, LinkLayerAddress, OptionCode,
    PrefixInformation, RecursiveDnsServer, RouterAdvertisement, RouterSolicitation,
};

const MAC: [u8; 6] = [0x52, 0x54, 0x00, 0x12, 0x34, 0x56];

fn sample_options() -> Vec<IcmpOption> {
    vec![
        IcmpOption::SourceLinkLayerAddress(LinkLayerAddress(MAC)),
        IcmpOption::Mtu(1500),
        IcmpOption::RecursiveDnsServer(RecursiveDnsServer {
            lifetime: 3600,
            addrs: vec![0x2001_0db8_0000_0000_0000_0000_0000_0053, 0xfd00_0000_0000_0000_0000_0000_0000_0001],
        }),
        IcmpOption::PrefixInformation(PrefixInformation {
            prefix_length: 64,
            on_link: true,
            autonomous: false,
            valid_lifetime: 86400,
            preferred_lifetime: 14400,
            prefix: 0x2001_0db8_0001_0000_0000_0000_0000_0000,
        }),
        IcmpOption::TargetLinkLayerAddress(LinkLayerAddress([1, 2, 3, 4, 5, 6])),
    ]
}

fn advertisement(options: Vec<IcmpOption>) -> IcmpPacket {
    IcmpPacket {
        typ: IcmpType::RouterAdvertisement,
        code: 0,
        checksum: 0xbeef,
        content: IcmpContent::RouterAdvertisement(RouterAdvertisement {
            cur_hop_limit: 64,
            managed: true,
            other: false,
            router_lifetime: 5400,
            reachable_timer: Some(30000),
            retrans_timer: None,
            options,
        }),
    }
}

fn encode(p: &IcmpPacket) -> Vec<u8> {
    let mut buf = Vec::new();
    p.encode(&mut buf);
    buf
}

fn decoded_options(bytes: &[u8]) -> Vec<IcmpOption> {
    match IcmpPacket::decode(bytes).unwrap().content {
        IcmpContent::RouterAdvertisement(a) => a.options,
        _ => panic!("not an advertisement"),
    }
}

#[test]
fn advertisement_round_trip() {
    let p = advertisement(sample_options());
    assert_eq!(IcmpPacket::decode(&encode(&p)).unwrap(), p);
}

#[test]
fn solicitation_round_trip() {
    for sll in [None, Some(LinkLayerAddress(MAC))] {
        let p = IcmpPacket {
            typ: IcmpType::RouterSolicitation,
            code: 0,
            checksum: 7,
            content: IcmpContent::RouterSolicitation(RouterSolicitation { source_link_layer_addr: sll }),
        };
        assert_eq!(IcmpPacket::decode(&encode(&p)).unwrap(), p);
    }
}

#[test]
fn advertisement_header_layout() {
    let bytes = encode(&advertisement(vec![]));
    assert_eq!(
        bytes,
        vec![134, 0, 0xbe, 0xef, 64, 0x80, 0x15, 0x18, 0, 0, 0x75, 0x30, 0, 0, 0, 0]
    );
}

#[test]
fn option_layouts() {
    let mut buf = Vec::new();
    IcmpOption::Mtu(1280).encode(&mut buf);
    assert_eq!(buf, vec![5, 1, 0, 0, 0, 0, 5, 0]);

    let mut buf = Vec::new();
    IcmpOption::PrefixInformation(PrefixInformation {
        prefix_length: 64,
        on_link: true,
        autonomous: true,
        valid_lifetime: 0x01020304,
        preferred_lifetime: 5,
        prefix: 0x2001_0db8_0000_0000_0000_0000_0000_0000,
    })
    .encode(&mut buf);
    let mut expected = vec![3, 4, 64, 0xc0, 1, 2, 3, 4, 0, 0, 0, 5, 0, 0, 0, 0, 0x20, 0x01, 0x0d, 0xb8];
    expected.extend([0u8; 12]);
    assert_eq!(buf, expected);
}

#[test]
fn every_option_fills_whole_units() {
    for opt in sample_options() {
        let mut buf = Vec::new();
        opt.encode(&mut buf);
        assert_eq!(buf.len() % 8, 0);
        assert_eq!(buf[1] as usize, buf.len() / 8);
    }
    let mut buf = Vec::new();
    IcmpOption::RecursiveDnsServer(RecursiveDnsServer { lifetime: 1, addrs: vec![9; 127] }).encode(&mut buf);
    assert_eq!(buf.len(), 8 + 16 * 127);
    assert_eq!(buf[1], 255);
}

#[test]
fn unknown_options_are_skipped() {
    let known = sample_options();
    let base = encode(&advertisement(known.clone()));
    for len in 1u8..=31 {
        let mut bytes = base[..16].to_vec();
        let mut first = Vec::new();
        known[0].encode(&mut first);
        bytes.extend(&first);
        bytes.push(200);
        bytes.push(len);
        bytes.extend(std::iter::repeat(0xaa).take(len as usize * 8 - 2));
        for opt in &known[1..] {
            opt.encode(&mut bytes);
        }
        assert_eq!(decoded_options(&bytes), known);
    }
}

#[test]
fn redirected_header_is_skipped() {
    let mut bytes = encode(&advertisement(vec![]));
    bytes.extend([4, 1, 0, 0, 0, 0, 0, 0]);
    IcmpOption::Mtu(9000).encode(&mut bytes);
    assert_eq!(decoded_options(&bytes), vec![IcmpOption::Mtu(9000)]);
}

#[test]
fn truncated_option_keeps_what_came_before() {
    let mut bytes = encode(&advertisement(vec![IcmpOption::Mtu(1500)]));
    bytes.extend([3, 4, 64, 0xc0, 0, 0]);
    assert_eq!(decoded_options(&bytes), vec![IcmpOption::Mtu(1500)]);
}

#[test]
fn skipping_past_the_end_stops_reading() {
    let mut bytes = encode(&advertisement(vec![IcmpOption::Mtu(1500)]));
    bytes.extend([99, 2, 0, 0]);
    assert_eq!(decoded_options(&bytes), vec![IcmpOption::Mtu(1500)]);
}

#[test]
fn dns_option_with_several_addresses() {
    let mut bytes = encode(&advertisement(vec![]));
    bytes.extend([25, 5, 0, 0, 0, 0, 0x0e, 0x10]);
    for i in 1..=2u8 {
        let mut a = [0u8; 16];
        a[15] = i;
        bytes.extend(a);
    }
    assert_eq!(
        decoded_options(&bytes),
        vec![IcmpOption::RecursiveDnsServer(RecursiveDnsServer { lifetime: 3600, addrs: vec![1, 2] })]
    );
}

#[test]
fn decode_errors() {
    assert_eq!(IcmpPacket::decode(&[]), Err(Error::Eof));
    assert_eq!(IcmpPacket::decode(&[1, 0, 0, 0]), Err(Error::UnknownIcmpType));
    assert_eq!(IcmpPacket::decode(&[134, 0, 0]), Err(Error::Eof));
    assert_eq!(IcmpPacket::decode(&[134, 0, 0, 0, 64, 0, 0]), Err(Error::Eof));
    assert_eq!(IcmpPacket::decode(&[133, 0, 0, 0, 0, 0]), Err(Error::Eof));
    assert_eq!(IcmpPacket::decode(&[133, 0, 0, 0, 0, 0, 0]), Err(Error::Eof));
}

fn solicitation_address(bytes: &[u8]) -> Option<LinkLayerAddress> {
    match IcmpPacket::decode(bytes).unwrap().content {
        IcmpContent::RouterSolicitation(s) => s.source_link_layer_addr,
        _ => panic!("not a solicitation"),
    }
}

#[test]
fn solicitation_reads_every_option() {
    let head = [133u8, 0, 0, 0, 9, 9, 9, 9];
    let mut mtu_first = head.to_vec();
    IcmpOption::Mtu(1500).encode(&mut mtu_first);
    IcmpOption::SourceLinkLayerAddress(LinkLayerAddress(MAC)).encode(&mut mtu_first);
    assert_eq!(solicitation_address(&mtu_first), Some(LinkLayerAddress(MAC)));

    let mut unknown_first = head.to_vec();
    unknown_first.extend([99, 2, 0, 0, 0, 0, 0, 0, 0, 0, 0, 0, 0, 0, 0, 0]);
    IcmpOption::SourceLinkLayerAddress(LinkLayerAddress(MAC)).encode(&mut unknown_first);
    assert_eq!(solicitation_address(&unknown_first), Some(LinkLayerAddress(MAC)));

    let mut cut_short = head.to_vec();
    cut_short.extend([99, 1]);
    assert_eq!(solicitation_address(&cut_short), None);
    let mut short_address = head.to_vec();
    short_address.extend([1, 1, 2]);
    assert_eq!(solicitation_address(&short_address), None);
}

#[test]
fn options_take_the_size_their_length_gives() {
    let mut bytes = encode(&advertisement(vec![]));
    bytes.extend([1, 2, 1, 2, 3, 4, 5, 6, 0, 0, 0, 0, 0, 0, 0, 0]);
    IcmpOption::Mtu(1400).encode(&mut bytes);
    assert_eq!(
        decoded_options(&bytes),
        vec![IcmpOption::SourceLinkLayerAddress(LinkLayerAddress([1, 2, 3, 4, 5, 6])), IcmpOption::Mtu(1400)]
    );

    let mut zero_length = encode(&advertisement(vec![IcmpOption::Mtu(1500)]));
    zero_length.extend([5, 0, 0, 0, 0, 0, 5, 0]);
    IcmpOption::Mtu(1400).encode(&mut zero_length);
    assert_eq!(decoded_options(&zero_length), vec![IcmpOption::Mtu(1500)]);

    let mut short_prefix = encode(&advertisement(vec![]));
    short_prefix.extend([3, 1, 64, 0xc0, 0, 0, 0, 1]);
    assert_eq!(decoded_options(&short_prefix), vec![]);
}

#[test]
fn option_decode_reports_unknown_codes() {
    let bytes = [77u8, 1, 0, 0, 0, 0, 0, 0, 5];
    assert_eq!(IcmpOption::decode(&bytes, 0), (Err(Error::UnknownOptionCode), 8));
    assert_eq!(IcmpOption::decode(&bytes, 8), (Err(Error::Eof), 8));
}

#[test]
fn solicitation_keeps_only_a_source_address() {
    let p = IcmpPacket::decode(&[133, 0, 0, 0, 0, 0, 0, 0, 2, 1, 1, 2, 3, 4, 5, 6]).unwrap();
    assert_eq!(
        p.content,
        IcmpContent::RouterSolicitation(RouterSolicitation { source_link_layer_addr: None })
    );
}

#[test]
fn type_and_option_codes() {
    assert_eq!(IcmpType::RouterSolicitation.to_u8(), 133);
    assert_eq!(IcmpType::RouterAdvertisement.to_u8(), 134);
    assert_eq!(IcmpType::from_u8(134), Some(IcmpType::RouterAdvertisement));
    assert_eq!(IcmpType::from_u8(135), None);
    for (code, value) in [
        (OptionCode::SourceLinkLayerAddress, 1),
        (OptionCode::TargetLinkLayerAddress, 2),
        (OptionCode::PrefixInformation, 3),
        (OptionCode::RedirectedHeader, 4),
        (OptionCode::Mtu, 5),
        (OptionCode::RecursiveDnsServer, 25),
    ] {
        assert_eq!(code.to_u8(), value);
        assert_eq!(OptionCode::from_u8(value), Some(code));
    }
    assert_eq!(OptionCode::from_u8(6), None);
}
