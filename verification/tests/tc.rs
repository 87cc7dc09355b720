use bpf_hole::action::{Action, IFINDEX_LO};
use bpf_hole::blocklist::{blocklist_key, Blocklist};
use bpf_hole::checksum::checksum_fixup;
use bpf_hole::tc::{bpf_hole_tc, try_bpf_hole_tc};

fn full_checksum(header: &[u8]) -> u16 {
    let mut sum: u32 = 0;
    let mut i = 0;
    while i + 1 < header.len() {
        sum += ((header[i] as u32) << 8) | header[i + 1] as u32;
        i += 2;
    }
    while sum >> 16 != 0 {
        sum = (sum & 0xFFFF) + (sum >> 16);
    }
    !(sum as u16)
}

fn wire_name(name: &str) -> Vec<u8> {
    let mut out = Vec::new();
    for label in name.split('.') {
        out.push(label.len() as u8);
        out.extend_from_slice(label.as_bytes());
    }
    out.push(0);
    out
}

fn dns_question(name: &str) -> Vec<u8> {
    let mut dns = vec![0x12, 0x34, 0x01, 0x00, 0, 1, 0, 0, 0, 0, 0, 0];
    dns.extend_from_slice(&wire_name(name));
    dns.extend_from_slice(&[0, 1, 0, 1]);
    dns
}

fn udp(src_port: u16, dst_port: u16, payload: &[u8]) -> Vec<u8> {
    let mut out = Vec::new();
    out.extend_from_slice(&src_port.to_be_bytes());
    out.extend_from_slice(&dst_port.to_be_bytes());
    out.extend_from_slice(&((payload.len() + 8) as u16).to_be_bytes());
    out.extend_from_slice(&[0, 0]);
    out.extend_from_slice(payload);
    out
}

fn frame_v4(proto: u8, dst: [u8; 4], transport: &[u8]) -> Vec<u8> {
    let mut frame = vec![1, 2, 3, 4, 5, 6, 7, 8, 9, 10, 11, 12, 0x08, 0x00];
    let mut ip = vec![0x45, 0, 0, 0, 0xAB, 0xCD, 0x40, 0, 0x40, proto, 0, 0, 192, 168, 0, 2];
    ip.extend_from_slice(&dst);
    let total = (20 + transport.len()) as u16;
    ip[2..4].copy_from_slice(&total.to_be_bytes());
    let check = full_checksum(&ip);
    ip[10..12].copy_from_slice(&check.to_be_bytes());
    frame.extend_from_slice(&ip);
    frame.extend_from_slice(transport);
    frame
}

fn frame_v6(next_hdr: u8, transport: &[u8]) -> Vec<u8> {
    let mut frame = vec![1, 2, 3, 4, 5, 6, 7, 8, 9, 10, 11, 12, 0x86, 0xDD];
    frame.extend_from_slice(&[0x60, 0, 0, 0]);
    frame.extend_from_slice(&(transport.len() as u16).to_be_bytes());
    frame.extend_from_slice(&[next_hdr, 0x40]);
    frame.extend_from_slice(&[0xFE, 0x80, 0, 0, 0, 0, 0, 0, 0, 0, 0, 0, 0, 0, 0, 1]);
    frame.extend_from_slice(&[0x20, 0x01, 0x48, 0x60, 0x48, 0x60, 0, 0, 0, 0, 0, 0, 0, 0, 0x88, 0x88]);
    frame.extend_from_slice(transport);
    frame
}

fn query_v4(name: &str) -> Vec<u8> {
    frame_v4(17, [8, 8, 8, 8], &udp(40000, 53, &dns_question(name)))
}

fn query_v6(name: &str) -> Vec<u8> {
    frame_v6(17, &udp(40000, 53, &dns_question(name)))
}

fn blocking(names: &[&str]) -> Blocklist {
    let mut list = Blocklist::new();
    for name in names {
        list.insert(blocklist_key(name.as_bytes()));
    }
    list
}

const REDIRECT: Action = Action::Redirect { ifindex: IFINDEX_LO, ingress: true };

#[test]
fn blocked_query_is_redirected_and_safe_query_passes() {
    let list = blocking(&["ads.example.com"]);
    let mut blocked = query_v4("ads.example.com");
    assert_eq!(bpf_hole_tc(&mut blocked, &list), REDIRECT);
    let mut safe = query_v4("safe.example.com");
    let before = safe.clone();
    assert_eq!(bpf_hole_tc(&mut safe, &list), Action::Pass);
    assert_eq!(safe, before);
}

#[test]
fn redirect_targets_the_loopback_device() {
    assert_eq!(IFINDEX_LO, 1);
    let list = blocking(&["ads.example.com"]);
    let mut packet = query_v4("ads.example.com");
    assert_eq!(try_bpf_hole_tc(&mut packet, &list), Ok(Action::Redirect { ifindex: 1, ingress: true }));
}

#[test]
fn redirect_rewrites_destination_and_checksum_only() {
    let list = blocking(&["ads.example.com"]);
    let mut packet = query_v4("ads.example.com");
    let before = packet.clone();
    let old_check = u16::from_be_bytes([before[24], before[25]]);
    assert_eq!(bpf_hole_tc(&mut packet, &list), REDIRECT);
    assert_eq!(&packet[30..34], &[127, 0, 0, 1]);
    let new_check = u16::from_be_bytes([packet[24], packet[25]]);
    assert_eq!(new_check, checksum_fixup(old_check, 0x0808_0808, 0x7F00_0001));
    assert_eq!(full_checksum(&packet[14..34]), 0);
    assert_ne!(new_check, old_check);
    assert_eq!(packet.len(), before.len());
    for i in 0..packet.len() {
        if !(24..26).contains(&i) && !(30..34).contains(&i) {
            assert_eq!(packet[i], before[i], "byte {}", i);
        }
    }
}

#[test]
fn redirect_of_an_ipv6_query_rewrites_the_destination_only() {
    let list = blocking(&["ads.example.com"]);
    let mut packet = query_v6("ads.example.com");
    let before = packet.clone();
    assert_eq!(bpf_hole_tc(&mut packet, &list), REDIRECT);
    assert_eq!(&packet[38..54], &[0, 0, 0, 0, 0, 0, 0, 0, 0, 0, 0, 0, 0, 0, 0, 1]);
    assert_eq!(&packet[..38], &before[..38]);
    assert_eq!(&packet[54..], &before[54..]);
    let mut safe = query_v6("safe.example.com");
    let safe_before = safe.clone();
    assert_eq!(bpf_hole_tc(&mut safe, &list), Action::Pass);
    assert_eq!(safe, safe_before);
}

#[test]
fn absent_names_pass_unchanged() {
    let list = blocking(&["ads.example.com", "tracker.example.net"]);
    for name in ["example.com", "x.ads.example.com", "ads.example.co", "ads.example.comm", "a"] {
        let mut packet = query_v4(name);
        let before = packet.clone();
        assert_eq!(bpf_hole_tc(&mut packet, &list), Action::Pass, "{}", name);
        assert_eq!(packet, before);
    }
    let mut with_empty_list = query_v4("ads.example.com");
    let before = with_empty_list.clone();
    assert_eq!(bpf_hole_tc(&mut with_empty_list, &Blocklist::new()), Action::Pass);
    assert_eq!(with_empty_list, before);
}

#[test]
fn other_traffic_passes_unchanged() {
    let list = blocking(&["ads.example.com"]);
    let dns = dns_question("ads.example.com");
    let cases = vec![
        frame_v4(17, [8, 8, 8, 8], &udp(40000, 5353, &dns)),
        frame_v4(17, [8, 8, 8, 8], &udp(53, 40000, &dns)),
        frame_v4(6, [8, 8, 8, 8], &udp(40000, 53, &dns)),
        frame_v6(6, &udp(40000, 53, &dns)),
        frame_v4(17, [8, 8, 8, 8], &udp(40000, 0x3500, &dns)),
    ];
    for case in cases {
        let mut packet = case.clone();
        assert_eq!(try_bpf_hole_tc(&mut packet, &list), Ok(Action::Pass));
        assert_eq!(packet, case);
    }
    let mut arp = query_v4("ads.example.com");
    arp[13] = 0x06;
    let before = arp.clone();
    assert_eq!(try_bpf_hole_tc(&mut arp, &list), Ok(Action::Pass));
    assert_eq!(arp, before);
}

#[test]
fn short_packets_pass_unchanged() {
    let list = blocking(&["ads.example.com"]);
    let whole = query_v4("ads.example.com");
    for len in 0..=54 {
        let mut packet = whole[..len].to_vec();
        assert_eq!(bpf_hole_tc(&mut packet, &list), Action::Pass, "length {}", len);
        assert_eq!(packet, &whole[..len]);
        let mut again = whole[..len].to_vec();
        assert_eq!(try_bpf_hole_tc(&mut again, &list), Err(()), "length {}", len);
        assert_eq!(again, &whole[..len]);
    }
    let whole_v6 = query_v6("ads.example.com");
    for len in 0..=74 {
        let mut packet = whole_v6[..len].to_vec();
        assert_eq!(bpf_hole_tc(&mut packet, &list), Action::Pass, "length {}", len);
        assert_eq!(packet, &whole_v6[..len]);
    }
}

#[test]
fn a_name_cut_short_is_not_the_blocked_name() {
    let list = blocking(&["ads.example.com"]);
    let whole = query_v4("ads.example.com");
    let name_end = 54 + 17;
    for len in 55..name_end - 1 {
        let mut packet = whole[..len].to_vec();
        assert_eq!(try_bpf_hole_tc(&mut packet, &list), Ok(Action::Pass), "length {}", len);
        assert_eq!(packet, &whole[..len]);
    }
    for len in name_end - 1..=whole.len() {
        let mut packet = whole[..len].to_vec();
        assert_eq!(try_bpf_hole_tc(&mut packet, &list), Ok(REDIRECT), "length {}", len);
    }
}

#[test]
fn trailing_bytes_behind_the_name_do_not_matter() {
    let list = blocking(&["ads.example.com"]);
    let mut dns = dns_question("ads.example.com");
    dns.extend_from_slice(&[0xEE; 300]);
    let mut packet = frame_v4(17, [1, 1, 1, 1], &udp(40000, 53, &dns));
    assert_eq!(bpf_hole_tc(&mut packet, &list), REDIRECT);
    assert_eq!(&packet[30..34], &[127, 0, 0, 1]);
    assert_eq!(full_checksum(&packet[14..34]), 0);
}

#[test]
fn garbage_never_breaks_the_egress_path() {
    let list = blocking(&["ads.example.com"]);
    for seed in 0..=255u8 {
        for len in [0usize, 1, 13, 14, 33, 34, 42, 54, 55, 74, 75, 200] {
            let mut packet: Vec<u8> = (0..len)
                .map(|i| seed.wrapping_mul(13).wrapping_add((i as u8).wrapping_mul(7)))
                .collect();
            let before = packet.clone();
            let action = bpf_hole_tc(&mut packet, &list);
            assert_eq!(action, Action::Pass);
            assert_eq!(packet, before);
        }
    }
}

#[test]
fn query_name_is_the_padded_dotted_name() {
    let packet = query_v4("ads.example.com");
    let question = bpf_hole::tc::dns_query_name(&packet).unwrap().unwrap();
    assert_eq!(question.name, blocklist_key(b"ads.example.com"));
    assert_eq!(question.payload_offset, 54);
    let v6 = query_v6("www.example.org");
    let question = bpf_hole::tc::dns_query_name(&v6).unwrap().unwrap();
    assert_eq!(question.name, blocklist_key(b"www.example.org"));
    assert_eq!(question.payload_offset, 74);
}

#[test]
fn query_name_of_other_traffic_is_nothing() {
    let dns = dns_question("ads.example.com");
    let response = frame_v4(17, [8, 8, 8, 8], &udp(53, 40000, &dns));
    assert!(bpf_hole::tc::dns_query_name(&response).unwrap().is_none());
    let tcp = frame_v4(6, [8, 8, 8, 8], &udp(40000, 53, &dns));
    assert!(bpf_hole::tc::dns_query_name(&tcp).unwrap().is_none());
    let whole = query_v4("ads.example.com");
    assert!(bpf_hole::tc::dns_query_name(&whole[..54]).is_err());
    assert!(bpf_hole::tc::dns_query_name(&whole[..55]).unwrap().is_some());
}

#[test]
fn rewrite_needs_a_whole_ip_header() {
    let whole = query_v4("ads.example.com");
    for len in 0..34 {
        let mut packet = whole[..len].to_vec();
        assert_eq!(bpf_hole::tc::redirect_to_loopback(&mut packet), Err(()));
        assert_eq!(packet, &whole[..len]);
    }
    let mut packet = whole[..34].to_vec();
    assert_eq!(bpf_hole::tc::redirect_to_loopback(&mut packet), Ok(20));
    assert_eq!(&packet[30..34], &[127, 0, 0, 1]);
    assert_eq!(full_checksum(&packet[14..34]), 0);

    let whole_v6 = query_v6("ads.example.com");
    let mut short = whole_v6[..53].to_vec();
    assert_eq!(bpf_hole::tc::redirect_to_loopback(&mut short), Err(()));
    assert_eq!(short, &whole_v6[..53]);
    let mut enough = whole_v6[..54].to_vec();
    assert_eq!(bpf_hole::tc::redirect_to_loopback(&mut enough), Ok(40));
    assert_eq!(enough[53], 1);

    let mut arp = whole.clone();
    arp[13] = 0x06;
    assert_eq!(bpf_hole::tc::redirect_to_loopback(&mut arp), Err(()));
}

#[test]
fn rewrite_of_a_packet_already_bound_for_loopback_keeps_it() {
    let mut packet = frame_v4(17, [127, 0, 0, 1], &udp(40000, 53, &dns_question("a.example")));
    let before = packet.clone();
    assert_eq!(bpf_hole::tc::redirect_to_loopback(&mut packet), Ok(20));
    assert_eq!(packet, before);
}

#[test]
fn drop_policy_discards_what_would_be_redirected() {
    let list = blocking(&["ads.example.com"]);
    let blocked = query_v4("ads.example.com");
    assert_eq!(bpf_hole::tc::bpf_hole_tc_drop(&blocked, &list), Action::Drop);
    assert_eq!(bpf_hole::tc::bpf_hole_tc_drop(&query_v6("ads.example.com"), &list), Action::Drop);
    assert_eq!(bpf_hole::tc::bpf_hole_tc_drop(&query_v4("safe.example.com"), &list), Action::Pass);
    assert_eq!(bpf_hole::tc::bpf_hole_tc_drop(&blocked[..54], &list), Action::Pass);
    assert_eq!(bpf_hole::tc::bpf_hole_tc_drop(&[], &list), Action::Pass);
}

#[test]
fn the_head_of_a_long_packet_is_decided_as_the_packet() {
    assert_eq!(bpf_hole::tc::HEAD_LEN, 14 + 40 + 8 + 12 + 128);
    let list = blocking(&["ads.example.com"]);
    let mut dns = dns_question("ads.example.com");
    dns.extend_from_slice(&[0x5A; 400]);
    for whole in [
        frame_v4(17, [9, 9, 9, 9], &udp(40000, 53, &dns)),
        frame_v6(17, &udp(40000, 53, &dns)),
        frame_v4(17, [9, 9, 9, 9], &udp(40000, 54, &dns)),
    ] {
        let mut head = whole[..bpf_hole::tc::HEAD_LEN].to_vec();
        let mut packet = whole.clone();
        assert_eq!(bpf_hole_tc(&mut head, &list), bpf_hole_tc(&mut packet, &list));
        assert_eq!(head, &packet[..bpf_hole::tc::HEAD_LEN]);
    }
}
