use rping::AddrFamily;
use rping::ErrorKind;
use rping::IpAddress;
use rping::Ping;

/// Serializes an ICMP message with `icmp_type`, code 0 and the given
/// identifier, sequence and payload, checksummed the RFC 1071 way.
fn icmp_message(icmp_type: u8, ident: u16, sequence: u16, payload: &[u8]) -> Vec<u8> {
    let mut m = vec![
        icmp_type,
        0,
        0,
        0,
        (ident >> 8) as u8,
        (ident & 0xFF) as u8,
        (sequence >> 8) as u8,
        (sequence & 0xFF) as u8,
    ];
    m.extend_from_slice(payload);
    let c = rping::checksum(&m);
    m[2] = (c >> 8) as u8;
    m[3] = (c & 0xFF) as u8;
    m
}

/// Wraps an ICMP message in a minimal 20-byte IPv4 header from `src`.
fn ipv4_datagram(src: [u8; 4], ttl: u8, icmp: &[u8]) -> Vec<u8> {
    let total = 20 + icmp.len();
    let mut d = vec![
        0x45,
        0,
        (total >> 8) as u8,
        (total & 0xFF) as u8,
        0,
        0,
        0,
        0,
        ttl,
        1,
        0,
        0,
        src[0],
        src[1],
        src[2],
        src[3],
        127,
        0,
        0,
        1,
    ];
    d.extend_from_slice(icmp);
    d
}

/// Runs one complete round against a single already-added v4 target: sends at
/// `now`, answers from `src` with the given TTL at `reply_at`, and finishes.
fn one_answered_round(
    p: &mut Ping,
    ident: u16,
    src: [u8; 4],
    ttl: u8,
    now: u64,
    reply_at: u64,
    timeout: u64,
) -> usize {
    let plan = p.start_round(now, timeout);
    assert_eq!(plan.len(), 1);
    let reply = icmp_message(0, ident, plan[0].sequence, &plan[0].packet[8..]);
    let datagram = ipv4_datagram(src, ttl, &reply);
    assert!(p.handle_datagram_v4(&datagram, reply_at));
    assert!(p.round_done(reply_at));
    p.finish_round()
}

#[test]
fn it_works() {
    let mut p = Ping::new(0x4242);
    p.add_host("google.com", Some(IpAddress::from_octets_v4(142, 250, 80, 14))).unwrap();
}

#[test]
fn reject_invalid_encoding() {
    let mut p = Ping::new(0x4242);
    // A name the resolver cannot resolve is rejected.
    let res = p.add_host("a\u{fffd}\u{fffd}", None);
    assert!(res.is_err());
}

#[test]
fn err_remove_nonexistent() {
    let mut p = Ping::new(0x4242);
    let host = "google.com";
    assert!(p.remove_host(host).is_err());

    p.add_host(host, Some(IpAddress::from_octets_v4(142, 250, 80, 14))).unwrap();
    p.remove_host(host).unwrap();
}

#[test]
fn test_send() {
    let mut p = Ping::new(0x4242);
    let host = "google.com";
    p.add_host(host, Some(IpAddress::from_octets_v4(142, 250, 80, 14))).unwrap();
    assert_eq!(
        1,
        one_answered_round(&mut p, 0x4242, [142, 250, 80, 14], 117, 1_000, 2_000, 1_000_000)
    );

    let mut iter = p.iter();
    println!("{:?}", iter);
    let handle = iter.next().unwrap();
    let c = handle.get_hostname_user();
    assert_eq!("google.com", c);
}

#[test]
fn test_address() {
    let mut p = Ping::new(0x4242);
    let host = "localhost";
    p.add_host(host, Some(IpAddress::from_octets_v4(127, 0, 0, 1))).unwrap();
    assert_eq!(
        1,
        one_answered_round(&mut p, 0x4242, [127, 0, 0, 1], 64, 1_000, 1_500, 1_000_000)
    );

    let mut iter = p.iter();
    let handle = iter.next().unwrap();
    let c = handle.get_address();
    assert!(c.starts_with("127.0.0.1"));
}

#[test]
fn checksum_known_values() {
    // 0x0001 + 0xf203 = 0xf204; ones'-complement: 0x0dfb.
    assert_eq!(rping::checksum(&[0x00, 0x01, 0xf2, 0x03]), 0x0dfb);
    // A trailing odd byte is padded with zero: sum 0xab00.
    assert_eq!(rping::checksum(&[0xab]), 0x54ff);
    // Carries fold back in: 0xffff + 0xffff = 0x1fffe -> 0xffff -> 0x0000.
    assert_eq!(rping::checksum(&[0xff, 0xff, 0xff, 0xff]), 0x0000);
    assert_eq!(rping::checksum(&[]), 0xffff);
}

#[test]
fn echo_request_round_trip() {
    // A request built by the engine validates against the same checksum and
    // parsing logic and yields back exactly the fields that went in.
    let payload = [1u8, 2, 3, 4, 5, 6, 7, 8];
    let pkt = rping::build_echo_request(AddrFamily::V4, 0x1234, 0x00ff, &payload);
    let msg = rping::parse_icmp(&pkt).unwrap();
    assert_eq!(msg.icmp_type, 8);
    assert_eq!(msg.code, 0);
    assert_eq!(msg.ident, 0x1234);
    assert_eq!(msg.sequence, 0x00ff);

    let pkt6 = rping::build_echo_request(AddrFamily::V6, 7, 9, &payload);
    assert_eq!(pkt6[0], 128);
    assert!(rping::parse_icmp(&pkt6).is_some());
}

#[test]
fn corrupted_packet_is_rejected() {
    let payload = [0u8; 8];
    let mut pkt = rping::build_echo_request(AddrFamily::V4, 77, 3, &payload);
    pkt[9] ^= 0x40;
    assert!(rping::parse_icmp(&pkt).is_none());
    assert!(rping::parse_icmp(&[8, 0, 0]).is_none());
}

#[test]
fn foreign_datagrams_are_discarded() {
    let mut p = Ping::new(0x4242);
    p.add_host("target", Some(IpAddress::from_octets_v4(10, 0, 0, 9))).unwrap();
    let plan = p.start_round(1_000, 500_000);
    let seq = plan[0].sequence;
    let payload = &plan[0].packet[8..];

    // Wrong identifier.
    let foreign = ipv4_datagram([10, 0, 0, 9], 64, &icmp_message(0, 0x9999, seq, payload));
    assert!(!p.handle_datagram_v4(&foreign, 1_100));
    // Wrong source address.
    let misdirected = ipv4_datagram([10, 0, 0, 8], 64, &icmp_message(0, 0x4242, seq, payload));
    assert!(!p.handle_datagram_v4(&misdirected, 1_100));
    // Wrong protocol in the IP header.
    let mut not_icmp = ipv4_datagram([10, 0, 0, 9], 64, &icmp_message(0, 0x4242, seq, payload));
    not_icmp[9] = 17;
    assert!(!p.handle_datagram_v4(&not_icmp, 1_100));

    // The probe is still outstanding; the real reply is accepted, once.
    let real = ipv4_datagram([10, 0, 0, 9], 64, &icmp_message(0, 0x4242, seq, payload));
    assert!(p.handle_datagram_v4(&real, 1_200));
    assert!(!p.handle_datagram_v4(&real, 1_300), "duplicate reply must be discarded");
    assert_eq!(p.finish_round(), 1);
}

#[test]
fn reply_parsing_reads_ip_and_icmp_headers() {
    let icmp = icmp_message(0, 0xBEEF, 41, &[9, 9, 9, 9]);
    let datagram = ipv4_datagram([192, 0, 2, 7], 49, &icmp);
    let rep = rping::parse_reply_v4(&datagram).unwrap();
    assert_eq!(rep.source, rping::IpAddress::from_octets_v4(192, 0, 2, 7));
    assert_eq!(rep.ttl, 49);
    assert_eq!(rep.msg.icmp_type, 0);
    assert_eq!(rep.msg.ident, 0xBEEF);
    assert_eq!(rep.msg.sequence, 41);

    // A corrupted checksum makes the datagram parse to nothing.
    let mut bad = datagram.clone();
    let n = bad.len();
    bad[n - 1] ^= 1;
    assert!(rping::parse_reply_v4(&bad).is_none());
    // A truncated datagram parses to nothing.
    assert!(rping::parse_reply_v4(&datagram[..19]).is_none());
}

#[test]
fn embedded_echo_extraction_reads_the_quoted_request() {
    let mut quoted = vec![
        0x45, 0, 0, 0, 0, 0, 0, 0, 1, 1, 0, 0, 192, 168, 0, 2, 10, 0, 0, 1,
    ];
    quoted.extend_from_slice(&rping::build_echo_request(
        rping::AddrFamily::V4,
        0x0101,
        77,
        &[0u8; 8],
    )[..8]);
    let te = icmp_message(11, 0, 0, &quoted);
    let e = rping::extract_embedded_echo(&te).unwrap();
    assert_eq!(e.dest, 0x0A000001);
    assert_eq!(e.ident, 0x0101);
    assert_eq!(e.sequence, 77);
    // Too short a quotation extracts nothing.
    assert!(rping::extract_embedded_echo(&te[..30]).is_none());
}

#[test]
fn loopback_round_has_ttl_and_latency() {
    // One round against loopback: one result, TTL present, latency >= 0.
    let mut p = Ping::new(7);
    p.add_host("127.0.0.1", Some(IpAddress::from_octets_v4(127, 0, 0, 1))).unwrap();
    let plan = p.start_round(5_000_000, 1_000_000);
    assert_eq!(plan.len(), 1);
    let reply = icmp_message(0, 7, plan[0].sequence, &plan[0].packet[8..]);
    let datagram = ipv4_datagram([127, 0, 0, 1], 64, &reply);
    assert!(p.handle_datagram_v4(&datagram, 5_000_350));
    assert_eq!(p.finish_round(), 1);

    let mut iter = p.iter();
    assert_eq!(iter.len(), 1);
    let h = iter.next().unwrap();
    assert_eq!(h.get_received_ttl(), 64);
    assert!(h.get_latency() >= 0);
    assert_eq!(h.get_latency(), 350);
    assert_eq!(h.get_error(), None);
    assert!(iter.next().is_none());
}

#[test]
fn unreachable_round_times_out_without_error() {
    // No listener: the round expires at its deadline; the result carries the
    // timeout sentinel and no error, and nothing crashes.
    let mut p = Ping::new(7);
    p.add_host("10.0.0.1", Some(IpAddress::from_octets_v4(10, 0, 0, 1))).unwrap();
    let plan = p.start_round(1_000_000, 200_000);
    assert_eq!(plan.len(), 1);
    assert!(!p.round_done(1_100_000));
    assert!(p.round_done(1_200_000));
    assert_eq!(p.finish_round(), 0);

    let mut iter = p.iter();
    let h = iter.next().unwrap();
    assert!(h.get_latency() < 0);
    assert_eq!(h.get_latency(), rping::TIMEOUT_SENTINEL);
    assert_eq!(h.get_error(), None);
}

#[test]
fn duplicate_host_is_rejected() {
    let mut p = Ping::new(7);
    let addr = IpAddress::from_octets_v4(10, 0, 0, 1);
    assert!(p.add_host("10.0.0.1", Some(addr)).is_ok());
    assert_eq!(p.add_host("10.0.0.1", Some(addr)), Err(ErrorKind::DuplicateHost));
}

#[test]
fn resolution_failure_is_reported() {
    let mut p = Ping::new(7);
    assert_eq!(p.add_host("no.such.host", None), Err(ErrorKind::ResolutionFailed));
    assert_eq!(p.iter().len(), 0);
}

#[test]
fn removal_of_absent_host_fails() {
    let mut p = Ping::new(7);
    p.add_host("one", Some(IpAddress::from_octets_v4(10, 0, 0, 1))).unwrap();
    p.add_host("two", Some(IpAddress::from_octets_v4(10, 0, 0, 2))).unwrap();
    assert_eq!(p.remove_host("one"), Ok(()));
    assert_eq!(p.remove_host("one"), Err(ErrorKind::HostNotFound));

    let mut iter = p.iter();
    assert_eq!(iter.len(), 1);
    assert_eq!(iter.next().unwrap().get_hostname_user(), "two");
}

#[test]
fn sequence_numbers_grow_across_rounds() {
    // Two consecutive rounds against the same target carry consecutive
    // sequence numbers.
    let mut p = Ping::new(7);
    p.add_host("host", Some(IpAddress::from_octets_v4(10, 0, 0, 1))).unwrap();
    let mut last: Vec<u16> = Vec::new();
    for round in 0..3u64 {
        let now = 1_000 + round * 10_000;
        assert_eq!(1, one_answered_round(&mut p, 7, [10, 0, 0, 1], 60, now, now + 5, 5_000));
        let seq = p.iter().next().unwrap().get_sequence();
        last.push(seq);
    }
    assert_eq!(last, vec![0, 1, 2]);
}

#[test]
fn sequence_numbers_wrap_at_u16_max() {
    let mut p = Ping::new(7);
    p.add_host("host", Some(IpAddress::from_octets_v4(10, 0, 0, 1))).unwrap();
    for round in 0..65537u64 {
        let now = 1_000 + round * 10;
        let plan = p.start_round(now, 5);
        let expect = (round % 65536) as u16;
        assert_eq!(plan[0].sequence, expect);
        p.finish_round();
    }
}

#[test]
fn transmit_failure_marks_the_target() {
    let mut p = Ping::new(7);
    p.add_host("far", Some(IpAddress::from_octets_v4(10, 0, 0, 1))).unwrap();
    p.add_host("near", Some(IpAddress::from_octets_v4(127, 0, 0, 1))).unwrap();
    let plan = p.start_round(1_000, 500_000);
    assert_eq!(plan.len(), 2);
    p.note_send_failure(0);
    let reply = icmp_message(0, 7, plan[1].sequence, &plan[1].packet[8..]);
    assert!(p.handle_datagram_v4(&ipv4_datagram([127, 0, 0, 1], 64, &reply), 1_400));
    assert!(p.round_done(1_400));
    assert_eq!(p.finish_round(), 1);

    let mut iter = p.iter();
    let far = iter.next().unwrap();
    assert_eq!(far.get_error(), Some(ErrorKind::TransmitFailed));
    assert!(far.get_latency() < 0);
    let near = iter.next().unwrap();
    assert_eq!(near.get_error(), None);
    assert_eq!(near.get_latency(), 400);
}

#[test]
fn time_exceeded_is_recorded_as_router_hop_error() {
    let mut p = Ping::new(0x0707);
    p.add_host("far", Some(IpAddress::from_octets_v4(10, 0, 0, 1))).unwrap();
    let plan = p.start_round(1_000, 500_000);
    let seq = plan[0].sequence;

    // A router at 192.0.2.1 reports time-exceeded, quoting our request's
    // IP header (destination 10.0.0.1) and its first eight ICMP bytes.
    let mut quoted = vec![
        0x45, 0, 0, 0, 0, 0, 0, 0, 1, 1, 0, 0, 192, 168, 0, 2, 10, 0, 0, 1,
    ];
    quoted.extend_from_slice(&plan[0].packet[..8]);
    let te = icmp_message(11, 0, 0, &quoted);
    let datagram = ipv4_datagram([192, 0, 2, 1], 255, &te);

    // A router report is not a reply: it resolves the probe with an error.
    assert!(!p.handle_datagram_v4(&datagram, 2_000));
    assert!(p.round_done(2_000));
    assert_eq!(p.finish_round(), 0);

    let h = p.iter().next().unwrap();
    assert_eq!(h.get_error(), Some(ErrorKind::TimeExceeded));
    assert!(h.get_latency() < 0);
    assert_eq!(h.get_sequence(), seq);
}

#[test]
fn v6_round_trip_and_address_text() {
    let mut p = Ping::new(3);
    let loop6 = IpAddress::V6(1);
    p.add_host("ip6-localhost", Some(loop6)).unwrap();
    let plan = p.start_round(1_000, 500_000);
    assert_eq!(plan.len(), 1);
    assert_eq!(plan[0].packet[0], 128);

    let reply = icmp_message(129, 3, plan[0].sequence, &plan[0].packet[8..]);
    assert!(p.handle_reply_v6(&reply, loop6, 64, 1_250));
    assert_eq!(p.finish_round(), 1);

    let h = p.iter().next().unwrap();
    assert_eq!(h.get_address(), "0000:0000:0000:0000:0000:0000:0000:0001");
    assert_eq!(h.get_received_ttl(), 64);
    assert_eq!(h.get_latency(), 250);
}

#[test]
fn address_text_is_dotted_decimal() {
    let a = IpAddress::from_octets_v4(10, 0, 200, 255);
    assert_eq!(a.to_text(), "10.0.200.255");
    assert_eq!(IpAddress::from_octets_v4(0, 0, 0, 0).to_text(), "0.0.0.0");
    let doc = (0x2001u128 << 112) | (0x0db8u128 << 96) | 0x0042u128;
    assert_eq!(
        IpAddress::V6(doc).to_text(),
        "2001:0db8:0000:0000:0000:0000:0000:0042"
    );
}

#[test]
fn results_iteration_is_restartable_and_ordered() {
    let mut p = Ping::new(7);
    p.add_host("a", Some(IpAddress::from_octets_v4(10, 0, 0, 1))).unwrap();
    p.add_host("b", Some(IpAddress::from_octets_v4(10, 0, 0, 2))).unwrap();
    p.add_host("c", Some(IpAddress::from_octets_v4(10, 0, 0, 3))).unwrap();

    let mut names: Vec<String> = Vec::new();
    let mut iter = p.iter();
    while let Some(h) = iter.next() {
        names.push(h.get_hostname_user());
    }
    assert_eq!(names, vec!["a", "b", "c"]);

    // A fresh snapshot starts over; reading one consumed nothing.
    let mut again = p.iter();
    assert_eq!(again.len(), 3);
    assert_eq!(again.next().unwrap().get_hostname_user(), "a");
}

#[test]
fn partial_rounds_report_per_target() {
    // One target answers, one times out: partial failure is normal and the
    // outcomes stay independent.
    let mut p = Ping::new(7);
    p.add_host("up", Some(IpAddress::from_octets_v4(127, 0, 0, 1))).unwrap();
    p.add_host("down", Some(IpAddress::from_octets_v4(10, 9, 9, 9))).unwrap();
    let plan = p.start_round(1_000, 200_000);
    let reply = icmp_message(0, 7, plan[0].sequence, &plan[0].packet[8..]);
    assert!(p.handle_datagram_v4(&ipv4_datagram([127, 0, 0, 1], 61, &reply), 1_700));
    assert!(!p.round_done(100_000));
    assert!(p.round_done(201_000));
    assert_eq!(p.finish_round(), 1);

    let mut iter = p.iter();
    let up = iter.next().unwrap();
    assert_eq!(up.get_latency(), 700);
    assert_eq!(up.get_received_ttl(), 61);
    let down = iter.next().unwrap();
    assert_eq!(down.get_latency(), rping::TIMEOUT_SENTINEL);
    assert_eq!(down.get_error(), None);
}

#[test]
fn cancellation_expires_unresolved_targets() {
    let mut p = Ping::new(7);
    p.add_host("slow", Some(IpAddress::from_octets_v4(10, 0, 0, 5))).unwrap();
    let _plan = p.start_round(1_000, 60_000_000);
    // The caller cancels long before the deadline.
    assert_eq!(p.finish_round(), 0);
    let h = p.iter().next().unwrap();
    assert!(h.get_latency() < 0);
    assert_eq!(h.get_error(), None);
}
