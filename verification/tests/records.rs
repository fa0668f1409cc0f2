//! The bytes of the records that user space reads.

use portmaster_kext::bandwidth::{Bandwidth, Key};
use portmaster_kext::connection::Direction;
use portmaster_kext::id_cache::build_info;
use portmaster_kext::info::{
    connection_end_event_v4_info, connection_end_event_v6_info, log_line, Severity, MAX_LOG_TEXT,
};
use portmaster_kext::ip::{IpAddress, IpProtocol, Ipv4Address, Ipv6Address};
use portmaster_kext::logger::{add_line, flush, is_recorded, LogBuffer, SIZE_OF_LOG_LINE_BUFFER};

fn tuple(protocol: IpProtocol) -> portmaster_kext::key::Key {
    portmaster_kext::key::Key {
        protocol,
        local_address: IpAddress::Ipv4(Ipv4Address::new(10, 0, 0, 1)),
        local_port: 0x1234,
        remote_address: IpAddress::Ipv4(Ipv4Address::new(192, 0, 2, 1)),
        remote_port: 443,
    }
}

#[test]
fn request_record_carries_the_captured_bytes() {
    let info = build_info(
        &tuple(IpProtocol::Tcp),
        7,
        8,
        Direction::Inbound,
        &[0xaa, 0xbb],
        true,
    )
    .unwrap();
    let mut expected = vec![1, 37, 0, 0, 0];
    expected.extend_from_slice(&7u64.to_le_bytes());
    expected.extend_from_slice(&8u64.to_le_bytes());
    expected.extend_from_slice(&[1, 6, 10, 0, 0, 1, 192, 0, 2, 1, 0x34, 0x12, 0xbb, 0x01, 4]);
    expected.extend_from_slice(&[2, 0, 0, 0, 0xaa, 0xbb]);
    assert_eq!(info.as_bytes(), &expected[..]);
}

#[test]
fn protocol_without_ports_reports_zero_ports() {
    let info = build_info(
        &tuple(IpProtocol::Icmp),
        1,
        0,
        Direction::Outbound,
        &[],
        false,
    )
    .unwrap();
    let bytes = info.as_bytes();
    assert_eq!(&bytes[31..36], &[0, 0, 0, 0, 3]);
}

#[test]
fn tuple_of_two_families_has_no_record() {
    let mut key = tuple(IpProtocol::Udp);
    key.remote_address = IpAddress::Ipv6(Ipv6Address::localhost());
    assert!(build_info(&key, 1, 0, Direction::Outbound, &[], false).is_none());
}

#[test]
fn end_records_have_fixed_sizes() {
    let v4 = connection_end_event_v4_info(
        5,
        0,
        17,
        Ipv4Address::new(1, 2, 3, 4),
        Ipv4Address::new(5, 6, 7, 8),
        1,
        2,
    );
    assert_eq!(
        v4.as_bytes(),
        &[
            3, 22, 0, 0, 0, 5, 0, 0, 0, 0, 0, 0, 0, 0, 17, 1, 2, 3, 4, 5, 6, 7, 8, 1, 0, 2, 0
        ]
    );
    let v6 = connection_end_event_v6_info(
        5,
        1,
        6,
        Ipv6Address::localhost(),
        Ipv6Address::localhost(),
        1,
        2,
    );
    assert_eq!(v6.as_bytes().len(), 5 + 46);
    assert_eq!(&v6.as_bytes()[..5], &[4, 46, 0, 0, 0]);
}

#[test]
fn log_line_is_cut_at_its_limit() {
    let short = log_line(Severity::Error, b"boom");
    assert_eq!(short.as_bytes(), &[0, 5, 0, 0, 0, 5, b'b', b'o', b'o', b'm']);
    let long = log_line(Severity::Error, &vec![b'x'; MAX_LOG_TEXT + 10]);
    assert_eq!(long.as_bytes().len(), 5 + 1 + MAX_LOG_TEXT);
}

#[test]
fn log_ring_drops_its_oldest_line() {
    let mut ring = LogBuffer::new();
    for n in 0..SIZE_OF_LOG_LINE_BUFFER + 3 {
        add_line(&mut ring, log_line(Severity::Error, format!("{}", n).as_bytes()));
    }
    let lines = flush(&mut ring);
    assert_eq!(lines.len(), SIZE_OF_LOG_LINE_BUFFER);
    assert_eq!(&lines[0].as_bytes()[6..], b"3");
    assert_eq!(&lines[SIZE_OF_LOG_LINE_BUFFER - 1].as_bytes()[6..], b"1026");
    assert!(flush(&mut ring).is_empty());
    assert!(is_recorded(Severity::Warning));
    assert!(!is_recorded(Severity::Info));
}

#[test]
fn bandwidth_report_lists_flows_in_order_and_starts_again() {
    let flow = |last: u8| Key {
        local_ip: Ipv4Address::new(10, 0, 0, last),
        local_port: 1,
        remote_ip: Ipv4Address::new(192, 0, 2, 1),
        remote_port: 2,
    };
    let mut stats = Bandwidth::new();
    stats.update_udp_v4(flow(2), Direction::Outbound, 5);
    stats.update_udp_v4(flow(1), Direction::Inbound, 3);
    stats.update_udp_v4(flow(1), Direction::Outbound, 4);
    stats.update_udp_v4(flow(1), Direction::Inbound, 10);
    assert_eq!(stats.get_entries_counts(), (0, 0, 2, 0));

    let report = stats.get_all_updates_udp_v4().unwrap();
    let mut expected = vec![5, 61, 0, 0, 0, 17, 2, 0, 0, 0];
    expected.extend_from_slice(&[10, 0, 0, 1, 1, 0, 192, 0, 2, 1, 2, 0]);
    expected.extend_from_slice(&4u64.to_le_bytes());
    expected.extend_from_slice(&13u64.to_le_bytes());
    expected.extend_from_slice(&[10, 0, 0, 2, 1, 0, 192, 0, 2, 1, 2, 0]);
    expected.extend_from_slice(&5u64.to_le_bytes());
    expected.extend_from_slice(&0u64.to_le_bytes());
    assert_eq!(report.as_bytes(), &expected[..]);
    assert!(stats.get_all_updates_udp_v4().is_none());
}

#[test]
fn ipv6_and_tcp_counters_are_separate() {
    let flow = Key {
        local_ip: Ipv6Address::localhost(),
        local_port: 1,
        remote_ip: Ipv6Address::localhost(),
        remote_port: 2,
    };
    let mut stats = Bandwidth::new();
    stats.update_tcp_v6(flow, Direction::Inbound, u64::MAX);
    assert!(stats.get_all_updates_udp_v6().is_none());
    assert!(stats.get_all_updates_tcp_v4().is_none());
    let report = stats.get_all_updates_tcp_v6().unwrap();
    assert_eq!(report.as_bytes().len(), 5 + 5 + 52);
    assert_eq!(report.as_bytes()[0], 6);
    assert_eq!(report.as_bytes()[5], 6);
    assert_eq!(&report.as_bytes()[54..62], &u64::MAX.to_le_bytes());
}

#[test]
fn report_holds_the_sums_of_all_updates() {
    let flow = |port: u16| Key {
        local_ip: Ipv6Address::localhost(),
        local_port: port,
        remote_ip: Ipv6Address::localhost(),
        remote_port: 2,
    };
    let mut stats = Bandwidth::new();
    for n in 1..=100u64 {
        let port = if n % 3 == 0 { 9 } else { 7 };
        let direction = if n % 2 == 0 {
            Direction::Outbound
        } else {
            Direction::Inbound
        };
        stats.update_udp_v6(flow(port), direction, n);
    }
    let report = stats.get_all_updates_udp_v6().unwrap();
    let bytes = report.as_bytes();
    assert_eq!(bytes.len(), 5 + 5 + 2 * 52);
    assert_eq!(bytes[6..10], 2u32.to_le_bytes());
    let sum = |multiple: bool, parity: u64| -> u64 {
        (1..=100u64)
            .filter(|n| (n % 3 == 0) == multiple && n % 2 == parity)
            .sum()
    };
    for (start, port, multiple) in [(10, 7u16, false), (62, 9u16, true)] {
        assert_eq!(bytes[start + 16..start + 18], port.to_le_bytes());
        assert_eq!(bytes[start + 36..start + 44], sum(multiple, 0).to_le_bytes());
        assert_eq!(bytes[start + 44..start + 52], sum(multiple, 1).to_le_bytes());
    }
    assert!(stats.get_all_updates_udp_v6().is_none());
}
