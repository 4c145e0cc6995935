use camera_stream::decimal::push_decimal;
use camera_stream::link::{fallback_client_ip, station_connected, stream_targets, DhcpRound, StationEvent, RELAY_PORT};
use camera_stream::mjpeg::{part_header, part_trailer, relay_response_head};
use camera_stream::sccb::{register_address_bytes, register_writes};

#[test]
fn decimal_spelling() {
    for (n, s) in [(0usize, "0"), (7, "7"), (10, "10"), (1406, "1406"), (65536, "65536")] {
        let mut out = vec![b'x'];
        push_decimal(n, &mut out);
        assert_eq!(out, [b"x".as_slice(), s.as_bytes()].concat());
    }
    let mut out = Vec::new();
    push_decimal(usize::MAX, &mut out);
    assert_eq!(out, usize::MAX.to_string().into_bytes());
}

#[test]
fn part_header_carries_the_length() {
    assert_eq!(
        part_header(1234),
        b"--frame\r\nContent-Type: image/jpeg\r\nContent-Length: 1234\r\n\r\n".to_vec()
    );
    assert_eq!(part_trailer(), b"\r\n");
    assert_eq!(
        relay_response_head(),
        b"HTTP/1.1 200 OK\r\nContent-Type: multipart/x-mixed-replace; boundary=frame\r\nCache-Control: no-cache\r\nConnection: close\r\n\r\n"
    );
}

#[test]
fn dhcp_round_targets() {
    let leases = [[192u8, 168, 2, 3], [192, 168, 2, 4]];
    assert_eq!(stream_targets(DhcpRound::TimedOut, &[]), vec![[192, 168, 2, 2]]);
    assert_eq!(
        stream_targets(DhcpRound::TimedOut, &leases),
        vec![[192, 168, 2, 2], [192, 168, 2, 3], [192, 168, 2, 4]]
    );
    assert_eq!(stream_targets(DhcpRound::ServerError, &leases), leases.to_vec());
    assert_eq!(stream_targets(DhcpRound::Returned, &[]), Vec::<[u8; 4]>::new());
    assert_eq!(fallback_client_ip(), [192, 168, 2, 2]);
    assert_eq!(RELAY_PORT, 5000);
}

#[test]
fn only_connections_wake_the_waiters() {
    assert!(station_connected(StationEvent::Connected));
    assert!(!station_connected(StationEvent::Disconnected));
    assert!(!station_connected(StationEvent::Failed));
}

#[test]
fn register_addresses_are_big_endian() {
    assert_eq!(register_address_bytes(0x300A), [0x30, 0x0A]);
    assert_eq!(register_address_bytes(0x00FF), [0x00, 0xFF]);
    let writes = register_writes(&[(0x3008, 0x82), (0x4300, 0x30)]);
    assert_eq!(writes, vec![([0x30, 0x08], 0x82), ([0x43, 0x00], 0x30)]);
}
