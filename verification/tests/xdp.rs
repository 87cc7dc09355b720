use bpf_hole::action::Action;
use bpf_hole::blocklist::{blocklist_key, Blocklist};
use bpf_hole::xdp::{bpf_hole_xdp, try_bpf_hole};

fn wire_name(name: &str) -> Vec<u8> {
    let mut out = Vec::new();
    for label in name.split('.') {
        out.push(label.len() as u8);
        out.extend_from_slice(label.as_bytes());
    }
    out.push(0);
    out
}

fn record(rtype: u16, data: &[u8]) -> Vec<u8> {
    let mut out = vec![0xC0, 0x0C];
    out.extend_from_slice(&rtype.to_be_bytes());
    out.extend_from_slice(&[0, 1]);
    out.extend_from_slice(&[0, 0, 0x0E, 0x10]);
    out.extend_from_slice(&(data.len() as u16).to_be_bytes());
    out.extend_from_slice(data);
    out
}

fn dns_response(name: &str, records: &[Vec<u8>]) -> Vec<u8> {
    let mut dns = vec![0x12, 0x34, 0x81, 0x80, 0, 1, 0, records.len() as u8, 0, 0, 0, 0];
    dns.extend_from_slice(&wire_name(name));
    dns.extend_from_slice(&[0, 1, 0, 1]);
    for r in records {
        dns.extend_from_slice(r);
    }
    dns
}

fn udp(src_port: u16, dst_port: u16, payload: &[u8]) -> Vec<u8> {
    let mut out = Vec::new();
    out.extend_from_slice(&src_port.to_be_bytes());
    out.extend_from_slice(&dst_port.to_be_bytes());
    out.extend_from_slice(&((payload.len() + 8) as u16).to_be_bytes());
    out.extend_from_slice(&[0, 0]);
    out.extend_from_slice(payload);
    out
}

fn frame_v4(proto: u8, transport: &[u8]) -> Vec<u8> {
    let mut frame = vec![1, 2, 3, 4, 5, 6, 7, 8, 9, 10, 11, 12, 0x08, 0x00];
    frame.extend_from_slice(&[0x45, 0, 0, 0, 0xAB, 0xCD, 0x40, 0, 0x40, proto, 0x11, 0x22]);
    frame.extend_from_slice(&[8, 8, 8, 8, 192, 168, 0, 2]);
    frame.extend_from_slice(transport);
    frame
}

fn frame_v6(next_hdr: u8, transport: &[u8]) -> Vec<u8> {
    let mut frame = vec![1, 2, 3, 4, 5, 6, 7, 8, 9, 10, 11, 12, 0x86, 0xDD];
    frame.extend_from_slice(&[0x60, 0, 0, 0, 0, 0, next_hdr, 0x40]);
    frame.extend_from_slice(&[0x20; 16]);
    frame.extend_from_slice(&[0x30; 16]);
    frame.extend_from_slice(transport);
    frame
}

fn response_v4(name: &str, records: &[Vec<u8>]) -> Vec<u8> {
    frame_v4(17, &udp(53, 40000, &dns_response(name, records)))
}

fn blocking(names: &[&str]) -> Blocklist {
    let mut list = Blocklist::new();
    for name in names {
        list.insert(blocklist_key(name.as_bytes()));
    }
    list
}

const NAME: &str = "ads.example.com";
const ANSWER_AT: usize = 54 + 17 + 4 + 2;
const ADDRESS_AT: usize = ANSWER_AT + 10;

#[test]
fn a_record_of_a_blocked_name_is_zeroed() {
    let list = blocking(&[NAME]);
    let mut packet = response_v4(NAME, &[record(1, &[93, 184, 216, 34])]);
    let before = packet.clone();
    assert_eq!(&before[ADDRESS_AT..ADDRESS_AT + 4], &[93, 184, 216, 34]);
    assert_eq!(bpf_hole_xdp(&mut packet, &list), Action::Neutered);
    assert_eq!(&packet[ADDRESS_AT..ADDRESS_AT + 4], &[0, 0, 0, 0]);
    assert_eq!(&packet[..ADDRESS_AT], &before[..ADDRESS_AT]);
    assert_eq!(&packet[ADDRESS_AT + 4..], &before[ADDRESS_AT + 4..]);
    assert_eq!(&packet[ANSWER_AT..ADDRESS_AT], &[0, 1, 0, 1, 0, 0, 0x0E, 0x10, 0, 4]);
    assert_eq!(packet.len(), before.len());
}

#[test]
fn only_the_first_record_is_zeroed() {
    let list = blocking(&[NAME]);
    let records = [record(1, &[93, 184, 216, 34]), record(1, &[10, 20, 30, 40])];
    let mut packet = response_v4(NAME, &records);
    let before = packet.clone();
    assert_eq!(try_bpf_hole(&mut packet, &list), Ok(Action::Neutered));
    assert_eq!(&packet[ADDRESS_AT..ADDRESS_AT + 4], &[0, 0, 0, 0]);
    assert_eq!(&packet[ADDRESS_AT + 4..], &before[ADDRESS_AT + 4..]);
    assert_eq!(&packet[packet.len() - 4..], &[10, 20, 30, 40]);
    assert_eq!(&packet[..ADDRESS_AT], &before[..ADDRESS_AT]);
}

#[test]
fn aaaa_record_of_a_blocked_name_is_zeroed() {
    let list = blocking(&[NAME]);
    let address = [0x26, 0x06, 0x28, 0, 0x02, 0x20, 0, 1, 0x02, 0x48, 0x18, 0x93, 0x25, 0xC8, 0x19, 0x46];
    let mut packet = response_v4(NAME, &[record(28, &address), record(1, &[1, 2, 3, 4])]);
    let before = packet.clone();
    assert_eq!(bpf_hole_xdp(&mut packet, &list), Action::Neutered);
    assert_eq!(&packet[ADDRESS_AT..ADDRESS_AT + 16], &[0u8; 16]);
    assert_eq!(&packet[..ADDRESS_AT], &before[..ADDRESS_AT]);
    assert_eq!(&packet[ADDRESS_AT + 16..], &before[ADDRESS_AT + 16..]);
}

#[test]
fn response_over_ipv6_is_neutered_too() {
    let list = blocking(&[NAME]);
    let dns = dns_response(NAME, &[record(1, &[93, 184, 216, 34])]);
    let mut packet = frame_v6(17, &udp(53, 40000, &dns));
    let before = packet.clone();
    let address_at = ADDRESS_AT + 20;
    assert_eq!(bpf_hole_xdp(&mut packet, &list), Action::Neutered);
    assert_eq!(&packet[address_at..address_at + 4], &[0, 0, 0, 0]);
    assert_eq!(&packet[..address_at], &before[..address_at]);
    assert_eq!(&packet[address_at + 4..], &before[address_at + 4..]);
}

#[test]
fn other_record_types_are_left_alone() {
    let list = blocking(&[NAME]);
    for rtype in [0u16, 2, 5, 15, 16, 27, 29, 256, 0x0100, 0x1C00] {
        let mut packet = response_v4(NAME, &[record(rtype, &[1, 2, 3, 4, 5, 6, 7, 8, 9, 10, 11, 12, 13, 14, 15, 16])]);
        let before = packet.clone();
        assert_eq!(try_bpf_hole(&mut packet, &list), Ok(Action::Pass), "type {}", rtype);
        assert_eq!(packet, before);
    }
}

#[test]
fn responses_for_other_names_pass_unchanged() {
    let list = blocking(&[NAME]);
    for name in ["safe.example.com", "example.com", "ads.example.org"] {
        let mut packet = response_v4(name, &[record(1, &[93, 184, 216, 34])]);
        let before = packet.clone();
        assert_eq!(bpf_hole_xdp(&mut packet, &list), Action::Pass, "{}", name);
        assert_eq!(packet, before);
    }
}

#[test]
fn traffic_that_is_no_dns_response_passes_unchanged() {
    let list = blocking(&[NAME]);
    let dns = dns_response(NAME, &[record(1, &[93, 184, 216, 34])]);
    let cases = vec![
        frame_v4(17, &udp(40000, 53, &dns)),
        frame_v4(17, &udp(5353, 40000, &dns)),
        frame_v4(6, &udp(53, 40000, &dns)),
        frame_v6(58, &udp(53, 40000, &dns)),
    ];
    for case in cases {
        let mut packet = case.clone();
        assert_eq!(try_bpf_hole(&mut packet, &list), Ok(Action::Pass));
        assert_eq!(packet, case);
    }
}

#[test]
fn short_responses_pass_unchanged() {
    let list = blocking(&[NAME]);
    let whole = response_v4(NAME, &[record(1, &[93, 184, 216, 34])]);
    for len in 0..whole.len() {
        let mut packet = whole[..len].to_vec();
        assert_eq!(bpf_hole_xdp(&mut packet, &list), Action::Pass, "length {}", len);
        assert_eq!(packet, &whole[..len]);
    }
    for len in 0..=54 {
        let mut packet = whole[..len].to_vec();
        assert_eq!(try_bpf_hole(&mut packet, &list), Err(()), "length {}", len);
    }
}

#[test]
fn a_record_cut_short_is_an_error_and_an_address_cut_short_is_left() {
    let list = blocking(&[NAME]);
    let whole = response_v4(NAME, &[record(1, &[93, 184, 216, 34])]);
    for len in ANSWER_AT..ADDRESS_AT {
        let mut packet = whole[..len].to_vec();
        assert_eq!(try_bpf_hole(&mut packet, &list), Err(()), "length {}", len);
        assert_eq!(packet, &whole[..len]);
    }
    for len in ADDRESS_AT..ADDRESS_AT + 4 {
        let mut packet = whole[..len].to_vec();
        assert_eq!(try_bpf_hole(&mut packet, &list), Ok(Action::Pass), "length {}", len);
        assert_eq!(packet, &whole[..len]);
    }
}

#[test]
fn without_a_pointer_the_record_is_sought_at_the_name() {
    let list = blocking(&["a"]);
    let mut dns = vec![0x12, 0x34, 0x81, 0x80, 0, 1, 0, 0, 0, 0, 0, 0];
    dns.extend_from_slice(&[1, b'a', 0, 0, 0, 0, 0, 0, 0, 0, 9, 9, 9, 9, 7]);
    let mut packet = frame_v4(17, &udp(53, 40000, &dns));
    let before = packet.clone();
    assert_eq!(try_bpf_hole(&mut packet, &list), Ok(Action::Pass));
    assert_eq!(packet, before);

    let mut typed = vec![0x12, 0x34, 0x81, 0x80, 0, 1, 0, 0, 0, 0, 0, 0];
    typed.extend_from_slice(&[0, 1, 0, 0, 0, 0, 0, 0, 0, 0, 9, 9, 9, 9, 7]);
    let dotted = blocking(&["."]);
    let mut packet = frame_v4(17, &udp(53, 40000, &typed));
    let before = packet.clone();
    assert_eq!(try_bpf_hole(&mut packet, &dotted), Ok(Action::Neutered));
    assert_eq!(&packet[64..68], &[0, 0, 0, 0]);
    assert_eq!(&packet[..64], &before[..64]);
    assert_eq!(&packet[68..], &before[68..]);
}

#[test]
fn garbage_behind_valid_headers_never_breaks_the_ingress_path() {
    let list = blocking(&[NAME]);
    for seed in 0..=255u8 {
        for len in [1usize, 2, 11, 12, 13, 22, 23, 40, 128, 129, 300] {
            let payload: Vec<u8> = (0..len)
                .map(|i| seed.wrapping_mul(29).wrapping_add((i as u8).wrapping_mul(11)))
                .collect();
            let mut packet = frame_v4(17, &udp(53, 40000, &payload));
            let before = packet.clone();
            let action = bpf_hole_xdp(&mut packet, &list);
            assert_eq!(action, Action::Pass);
            assert_eq!(packet, before);
        }
    }
}

#[test]
fn response_name_is_the_padded_dotted_name() {
    let packet = response_v4(NAME, &[record(1, &[93, 184, 216, 34])]);
    let question = bpf_hole::xdp::dns_response_name(&packet).unwrap().unwrap();
    assert_eq!(question.name, blocklist_key(NAME.as_bytes()));
    assert_eq!(question.payload_offset, 54);
    let query = frame_v4(17, &udp(40000, 53, &dns_response(NAME, &[])));
    assert!(bpf_hole::xdp::dns_response_name(&query).unwrap().is_none());
    assert!(bpf_hole::xdp::dns_response_name(&packet[..54]).is_err());
}

#[test]
fn neutering_works_from_a_given_payload_offset() {
    let mut payload = vec![7u8, 7, 7, 0xC0, 0x0C, 0, 1, 0, 1, 0, 0, 0, 60, 0, 4, 1, 2, 3, 4, 5];
    let before = payload.clone();
    assert_eq!(bpf_hole::xdp::neuter_first_answer(&mut payload, 0), Ok(Action::Neutered));
    assert_eq!(&payload[15..19], &[0, 0, 0, 0]);
    assert_eq!(&payload[..15], &before[..15]);
    assert_eq!(payload[19], 5);

    let mut from_two = before.clone();
    assert_eq!(bpf_hole::xdp::neuter_first_answer(&mut from_two, 2), Ok(Action::Neutered));
    assert_eq!(&from_two[15..19], &[0, 0, 0, 0]);

    let mut past_the_end = before.clone();
    assert_eq!(bpf_hole::xdp::neuter_first_answer(&mut past_the_end, 20), Err(()));
    assert_eq!(bpf_hole::xdp::neuter_first_answer(&mut past_the_end, usize::MAX), Err(()));
    assert_eq!(past_the_end, before);

    let mut behind_marker = before.clone();
    assert_eq!(bpf_hole::xdp::neuter_first_answer(&mut behind_marker, 12), Err(()));
    assert_eq!(behind_marker, before);
}
