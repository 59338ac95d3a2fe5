use russh_core::codec::{frame_packet, read_all_packets, read_packet, read_string, read_u32_be};
use russh_core::sshbuffer::{SSHBuffer, SSHId};

#[test]
fn frame_small_payload_exact_bytes() {
    // payload of one byte under block size 8: padding 10, length field 12
    let pkt = frame_packet(&[42u8], 8);
    let mut expected = vec![0u8, 0, 0, 12, 10, 42];
    expected.extend(std::iter::repeat(0u8).take(10));
    assert_eq!(pkt, expected);
}

#[test]
fn frame_empty_payload_is_minimum_packet() {
    let pkt = frame_packet(&[], 8);
    // total must be a multiple of 8 and at least 16
    assert_eq!(pkt.len(), 16);
    assert_eq!(&pkt[0..4], &[0, 0, 0, 12]);
    assert_eq!(pkt[4], 11);
}

#[test]
fn round_trip_returns_original_payload() {
    let payload: Vec<u8> = (0u8..=255).collect();
    let pkt = frame_packet(&payload, 16);
    assert_eq!(pkt.len() % 16, 0);
    let (back, consumed) = read_packet(&pkt, 16).unwrap();
    assert_eq!(back, payload);
    assert_eq!(consumed, pkt.len());
}

#[test]
fn read_all_recovers_every_payload_and_every_byte() {
    let payloads: Vec<Vec<u8>> = vec![vec![1, 2, 3], vec![], vec![9; 300]];
    let mut wire = Vec::new();
    for p in &payloads {
        wire.extend(frame_packet(p, 8));
    }
    let back = read_all_packets(&wire, 8).unwrap();
    assert_eq!(back, payloads);
    // the packet boundaries partition the wire: summed, they cover it all
    let mut total = 0usize;
    let mut pos = 0usize;
    while pos < wire.len() {
        let (_, n) = read_packet(&wire[pos..], 8).unwrap();
        total += n;
        pos += n;
    }
    assert_eq!(total, wire.len());
}

#[test]
fn truncated_packet_is_a_protocol_error() {
    let pkt = frame_packet(&[1, 2, 3, 4], 8);
    assert!(read_packet(&pkt[..pkt.len() - 1], 8).is_err());
    assert!(read_all_packets(&pkt[..5], 8).is_err());
}

#[test]
fn absurd_length_field_is_a_protocol_error() {
    // length field far beyond the 32 MiB cap
    let bad = vec![0xffu8, 0xff, 0xff, 0xff, 4, 0, 0, 0];
    assert!(read_packet(&bad, 8).is_err());
    // length field below the minimum
    let small = vec![0u8, 0, 0, 4, 0, 0, 0, 0];
    assert!(read_packet(&small, 8).is_err());
}

#[test]
fn read_u32_is_big_endian() {
    let buf = [0x12u8, 0x34, 0x56, 0x78];
    assert_eq!(read_u32_be(&buf, 0), 0x1234_5678);
}

#[test]
fn read_string_takes_length_prefixed_bytes() {
    let buf = [0u8, 0, 0, 3, 7, 8, 9, 42];
    let (s, next) = read_string(&buf, 0).unwrap();
    assert_eq!(s, vec![7, 8, 9]);
    assert_eq!(next, 7);
    assert!(read_string(&buf, 5).is_err());
}

#[test]
fn ssh_id_standard_appends_crlf() {
    let id = SSHId::Standard(String::from("SSH-2.0-test"));
    assert_eq!(id.to_bytes(), b"SSH-2.0-test\r\n".to_vec());
    let raw = SSHId::Raw(String::from("SSH-2.0-raw\n"));
    assert_eq!(raw.to_bytes(), b"SSH-2.0-raw\n".to_vec());
}

#[test]
fn send_ssh_id_appends_to_the_wire() {
    let mut buf = SSHBuffer::new();
    buf.send_ssh_id(&SSHId::Standard(String::from("SSH-2.0-x")));
    assert_eq!(buf.buffer.as_ref(), b"SSH-2.0-x\r\n");
    assert_eq!(buf.seqn, 0);
    assert_eq!(buf.bytes, 0);
}
