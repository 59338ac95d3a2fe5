use russh_core::codec::read_all_packets;
use russh_core::msg::{self, ChannelMsg, Msg};
use russh_core::session::{Config, Disconnect, Limits, LoopAction, LoopEvent, Session};
use russh_core::ChannelId;
use russh_cryptovec::CryptoVec;

const BLOCK: usize = 8;

fn test_config(window: u32, maxp: u32, rekey_limit: usize) -> Config {
    Config {
        window_size: window,
        maximum_packet_size: maxp,
        limits: Limits { rekey_write_limit: rekey_limit },
    }
}

fn be(x: u32) -> [u8; 4] {
    x.to_be_bytes()
}

fn confirmation(id: ChannelId, peer: u32, window: u32, maxp: u32) -> Vec<u8> {
    let mut p = vec![msg::CHANNEL_OPEN_CONFIRMATION];
    p.extend(be(id.0));
    p.extend(be(peer));
    p.extend(be(window));
    p.extend(be(maxp));
    p
}

fn window_adjust(id: ChannelId, amount: u32) -> Vec<u8> {
    let mut p = vec![msg::CHANNEL_WINDOW_ADJUST];
    p.extend(be(id.0));
    p.extend(be(amount));
    p
}

fn take_wire(s: &mut Session) -> Vec<Vec<u8>> {
    s.flush().unwrap();
    let wire: Vec<u8> = s.write_buffer.buffer.as_ref().to_vec();
    s.write_buffer.buffer.clear();
    read_all_packets(&wire, BLOCK).unwrap()
}

/// Parses a CHANNEL_DATA payload into (recipient, bytes).
fn parse_data(payload: &[u8]) -> (u32, Vec<u8>) {
    assert_eq!(payload[0], msg::CHANNEL_DATA);
    let recipient = u32::from_be_bytes(payload[1..5].try_into().unwrap());
    let len = u32::from_be_bytes(payload[5..9].try_into().unwrap()) as usize;
    assert_eq!(payload.len(), 9 + len);
    (recipient, payload[9..].to_vec())
}

fn open_confirmed(s: &mut Session, peer: u32, window: u32, maxp: u32) -> ChannelId {
    let id = match s.step(LoopEvent::App(Msg::ChannelOpenSession)).unwrap() {
        LoopAction::Register(id) => id,
        other => panic!("expected Register, got {:?}", other),
    };
    let packets = take_wire(s);
    assert_eq!(packets.len(), 1);
    assert_eq!(packets[0][0], msg::CHANNEL_OPEN);
    match s
        .step(LoopEvent::Inbound(confirmation(id, peer, window, maxp)))
        .unwrap()
    {
        LoopAction::Deliver(cid, ChannelMsg::Open { window_size, max_packet_size, .. }) => {
            assert_eq!(cid, id);
            assert_eq!(window_size, window);
            assert_eq!(max_packet_size, maxp);
        }
        other => panic!("expected Open delivery, got {:?}", other),
    }
    id
}

#[test]
fn open_send_close() {
    let mut s = Session::new(1, test_config(4096, 2048, usize::MAX), BLOCK);
    let id = open_confirmed(&mut s, 7, 2_097_152, 32_768);

    let data = CryptoVec::from_slice(&vec![0x61u8; 100_000]);
    match s.step(LoopEvent::App(Msg::Channel(id, ChannelMsg::Data { data }))).unwrap() {
        LoopAction::Continue => {}
        other => panic!("unexpected action {:?}", other),
    }
    let packets = take_wire(&mut s);
    assert_eq!(packets.len(), 4);
    let sizes: Vec<usize> = packets.iter().map(|p| parse_data(p).1.len()).collect();
    assert_eq!(sizes, vec![32_768, 32_768, 32_768, 1_696]);
    for p in &packets {
        assert_eq!(parse_data(p).0, 7);
    }
    assert_eq!(s.window_size(&id), 2_097_152 - 100_000);

    s.step(LoopEvent::App(Msg::Channel(id, ChannelMsg::Eof))).unwrap();
    s.step(LoopEvent::App(Msg::Channel(id, ChannelMsg::Close))).unwrap();
    let packets = take_wire(&mut s);
    assert_eq!(packets.len(), 2);
    assert_eq!(&packets[0][..], &{
        let mut v = vec![msg::CHANNEL_EOF];
        v.extend(be(7));
        v
    }[..]);
    assert_eq!(packets[1][0], msg::CHANNEL_CLOSE);

    // the peer's CLOSE removes the channel from the table
    let mut close = vec![msg::CHANNEL_CLOSE];
    close.extend(be(id.0));
    match s.step(LoopEvent::Inbound(close)).unwrap() {
        LoopAction::Deliver(cid, ChannelMsg::Close) => assert_eq!(cid, id),
        other => panic!("unexpected action {:?}", other),
    }
    // any further operation on that id is inconsistent
    let again = CryptoVec::from_slice(b"x");
    assert!(s.step(LoopEvent::App(Msg::Channel(id, ChannelMsg::Data { data: again }))).is_err());
    assert_eq!(s.window_size(&id), 0);
}

#[test]
fn window_exhaustion() {
    let mut s = Session::new(2, test_config(4096, 2048, usize::MAX), BLOCK);
    let id = open_confirmed(&mut s, 9, 8192, 4096);

    let data = CryptoVec::from_slice(&vec![0x62u8; 20_000]);
    s.step(LoopEvent::App(Msg::Channel(id, ChannelMsg::Data { data }))).unwrap();
    let packets = take_wire(&mut s);
    let sizes: Vec<usize> = packets.iter().map(|p| parse_data(p).1.len()).collect();
    assert_eq!(sizes, vec![4096, 4096]);
    assert_eq!(s.window_size(&id), 0);
    assert!(s.has_pending_data(id));

    // the peer grants more window; the queued bytes drain
    match s.step(LoopEvent::Inbound(window_adjust(id, 16_384))).unwrap() {
        LoopAction::Deliver(cid, ChannelMsg::WindowAdjusted { new_size }) => {
            assert_eq!(cid, id);
            assert_eq!(new_size, 16_384);
        }
        other => panic!("unexpected action {:?}", other),
    }
    let packets = take_wire(&mut s);
    let sizes: Vec<usize> = packets.iter().map(|p| parse_data(p).1.len()).collect();
    assert_eq!(sizes, vec![4096, 4096, 3616]);
    assert!(!s.has_pending_data(id));
    // remaining credit: 16384 granted, 11808 used
    assert_eq!(s.window_size(&id), 16_384 - 11_808);
}

#[test]
fn rekey_quiescence() {
    // the byte limit forces a rekey right after the first data packet
    let mut s = Session::new(3, test_config(4096, 2048, 150), BLOCK);
    let id = open_confirmed(&mut s, 5, 1 << 20, 4096);
    assert!(!s.is_rekeying());

    let data = CryptoVec::from_slice(&vec![0x63u8; 100]);
    s.step(LoopEvent::App(Msg::Channel(id, ChannelMsg::Data { data }))).unwrap();
    s.flush().unwrap();
    assert!(s.is_rekeying());
    let wire: Vec<u8> = s.write_buffer.buffer.as_ref().to_vec();
    s.write_buffer.buffer.clear();
    let packets = read_all_packets(&wire, BLOCK).unwrap();
    // the DATA went out, followed by KEXINIT — nothing after it
    assert_eq!(packets.len(), 2);
    assert_eq!(packets[0][0], msg::CHANNEL_DATA);
    assert_eq!(packets[1][0], msg::KEXINIT);

    // a second data message during the rekey is deferred, not processed
    let second = CryptoVec::from_slice(&vec![0x64u8; 50]);
    let deferred = match s
        .step(LoopEvent::App(Msg::Channel(id, ChannelMsg::Data { data: second })))
        .unwrap()
    {
        LoopAction::AppDeferred(m) => m,
        other => panic!("expected deferral, got {:?}", other),
    };
    assert!(take_wire(&mut s).is_empty());

    // the peer's KEXINIT draws our NEWKEYS; its NEWKEYS completes the rekey
    s.step(LoopEvent::Inbound(vec![msg::KEXINIT])).unwrap();
    let packets = take_wire(&mut s);
    assert_eq!(packets.len(), 1);
    assert_eq!(packets[0][0], msg::NEWKEYS);
    s.step(LoopEvent::Inbound(vec![msg::NEWKEYS])).unwrap();
    assert!(!s.is_rekeying());

    // only now does the deferred data reach the wire
    s.step(LoopEvent::App(deferred)).unwrap();
    let packets = take_wire(&mut s);
    assert_eq!(packets.len(), 1);
    let (_, bytes) = parse_data(&packets[0]);
    assert_eq!(bytes, vec![0x64u8; 50]);
}

#[test]
fn per_channel_ordering_without_cross_talk() {
    let mut s = Session::new(4, test_config(4096, 2048, usize::MAX), BLOCK);
    let a = open_confirmed(&mut s, 100, 1 << 20, 4096);
    let b = open_confirmed(&mut s, 200, 1 << 20, 4096);
    for i in 0..10u8 {
        let da = CryptoVec::from_slice(&[i]);
        let db = CryptoVec::from_slice(&[i + 100]);
        s.step(LoopEvent::App(Msg::Channel(a, ChannelMsg::Data { data: da }))).unwrap();
        s.step(LoopEvent::App(Msg::Channel(b, ChannelMsg::Data { data: db }))).unwrap();
    }
    let packets = take_wire(&mut s);
    assert_eq!(packets.len(), 20);
    let mut seen_a = Vec::new();
    let mut seen_b = Vec::new();
    for p in &packets {
        let (recipient, bytes) = parse_data(p);
        match recipient {
            100 => seen_a.push(bytes[0]),
            200 => seen_b.push(bytes[0]),
            other => panic!("data for an unknown channel {other}"),
        }
    }
    assert_eq!(seen_a, (0..10u8).collect::<Vec<_>>());
    assert_eq!(seen_b, (100..110u8).collect::<Vec<_>>());
}

#[test]
fn no_partial_packet_without_credit() {
    let mut s = Session::new(5, test_config(4096, 2048, usize::MAX), BLOCK);
    // confirmed with a zero window: everything queues, nothing is emitted
    let id = open_confirmed(&mut s, 3, 0, 4096);
    let data = CryptoVec::from_slice(&vec![0x65u8; 500]);
    s.step(LoopEvent::App(Msg::Channel(id, ChannelMsg::Data { data }))).unwrap();
    assert!(take_wire(&mut s).is_empty());
    assert!(s.has_pending_data(id));
    assert_eq!(s.sender_window_size(id), 0);
}

#[test]
fn peer_disconnect_exits_the_loop() {
    let mut s = Session::new(6, test_config(4096, 2048, usize::MAX), BLOCK);
    match s.step(LoopEvent::Inbound(vec![msg::DISCONNECT])).unwrap() {
        LoopAction::Exit => {}
        other => panic!("expected exit, got {:?}", other),
    }
    assert!(s.disconnected);
    // a timer expiry exits as well
    let mut t = Session::new(7, test_config(4096, 2048, usize::MAX), BLOCK);
    assert!(matches!(t.step(LoopEvent::Timeout).unwrap(), LoopAction::Exit));
}

#[test]
fn open_close_any_order_empties_table() {
    let mut s = Session::new(8, test_config(4096, 2048, usize::MAX), BLOCK);
    let ids: Vec<ChannelId> = (0..5).map(|i| open_confirmed(&mut s, 50 + i, 1024, 512)).collect();
    // close them in a scrambled order: local close, then the peer's
    for &k in &[3usize, 0, 4, 1, 2] {
        let id = ids[k];
        s.step(LoopEvent::App(Msg::Channel(id, ChannelMsg::Close))).unwrap();
        let mut close = vec![msg::CHANNEL_CLOSE];
        close.extend(be(id.0));
        s.step(LoopEvent::Inbound(close)).unwrap();
    }
    for &id in &ids {
        assert_eq!(s.window_size(&id), 0);
        assert_eq!(s.max_packet_size(&id), 0);
        let d = CryptoVec::from_slice(b"y");
        assert!(s.step(LoopEvent::App(Msg::Channel(id, ChannelMsg::Data { data: d }))).is_err());
    }
}

#[test]
fn sequence_number_counts_packets() {
    let mut s = Session::new(9, test_config(4096, 2048, usize::MAX), BLOCK);
    let id = open_confirmed(&mut s, 7, 1 << 20, 256);
    assert_eq!(s.write_buffer.seqn, 1); // the CHANNEL_OPEN packet
    let data = CryptoVec::from_slice(&vec![1u8; 1000]);
    s.step(LoopEvent::App(Msg::Channel(id, ChannelMsg::Data { data }))).unwrap();
    s.flush().unwrap();
    // four more data packets of at most 256 bytes each
    assert_eq!(s.write_buffer.seqn, 5);
}

#[test]
fn exit_status_wire_bytes() {
    let mut s = Session::new(10, test_config(4096, 2048, usize::MAX), BLOCK);
    let id = open_confirmed(&mut s, 11, 1024, 512);
    s.step(LoopEvent::App(Msg::Channel(id, ChannelMsg::ExitStatus { exit_status: 3 })))
        .unwrap();
    let packets = take_wire(&mut s);
    let mut expected = vec![msg::CHANNEL_REQUEST];
    expected.extend(be(11));
    expected.extend(be(11)); // the string length of "exit-status"
    expected.extend(b"exit-status");
    expected.push(0);
    expected.extend(be(3));
    assert_eq!(packets, vec![expected]);
}

#[test]
fn channel_success_only_when_reply_owed() {
    let mut s = Session::new(11, test_config(4096, 2048, usize::MAX), BLOCK);
    let id = open_confirmed(&mut s, 12, 1024, 512);
    // no request pending: a success reply emits nothing
    s.step(LoopEvent::App(Msg::Channel(id, ChannelMsg::Success))).unwrap();
    assert!(take_wire(&mut s).is_empty());
    // an inbound request with want-reply set marks the reply owed
    let mut req = vec![msg::CHANNEL_REQUEST];
    req.extend(be(id.0));
    req.extend(be(5));
    req.extend(b"shell");
    req.push(1);
    match s.step(LoopEvent::Inbound(req)).unwrap() {
        LoopAction::Handler(_) => {}
        other => panic!("expected handler action, got {:?}", other),
    }
    s.step(LoopEvent::App(Msg::Channel(id, ChannelMsg::Success))).unwrap();
    let packets = take_wire(&mut s);
    let mut expected = vec![msg::CHANNEL_SUCCESS];
    expected.extend(be(12));
    assert_eq!(packets, vec![expected]);
}

#[test]
fn inbound_data_is_delivered_and_window_replenished() {
    let mut s = Session::new(12, test_config(1000, 512, usize::MAX), BLOCK);
    let id = open_confirmed(&mut s, 13, 1024, 512);
    // inbound data consumes more than half the granted window
    let mut p = vec![msg::CHANNEL_DATA];
    p.extend(be(id.0));
    p.extend(be(600));
    p.extend(vec![0x66u8; 600]);
    match s.step(LoopEvent::Inbound(p)).unwrap() {
        LoopAction::Deliver(cid, ChannelMsg::Data { data }) => {
            assert_eq!(cid, id);
            assert_eq!(data.as_ref(), &vec![0x66u8; 600][..]);
        }
        other => panic!("unexpected action {:?}", other),
    }
    // the window grows back towards the target with one WINDOW_ADJUST
    let packets = take_wire(&mut s);
    assert_eq!(packets.len(), 1);
    let mut expected = vec![msg::CHANNEL_WINDOW_ADJUST];
    expected.extend(be(13));
    expected.extend(be(600));
    assert_eq!(packets, vec![expected]);
}

#[test]
fn malformed_and_unknown_packets_are_protocol_errors() {
    let mut s = Session::new(13, test_config(4096, 2048, usize::MAX), BLOCK);
    assert_eq!(
        s.step(LoopEvent::Inbound(vec![msg::CHANNEL_WINDOW_ADJUST, 0])).unwrap_err(),
        russh_core::Error::Protocol
    );
    assert_eq!(
        s.step(LoopEvent::Inbound(vec![200])).unwrap_err(),
        russh_core::Error::Protocol
    );
    // an operation on a channel that was never opened is inconsistent
    let d = CryptoVec::from_slice(b"z");
    assert_eq!(
        s.step(LoopEvent::App(Msg::Channel(ChannelId(99), ChannelMsg::Data { data: d })))
            .unwrap_err(),
        russh_core::Error::Inconsistent
    );
}

#[test]
fn disconnect_emits_packet_and_marks_session() {
    let mut s = Session::new(14, test_config(4096, 2048, usize::MAX), BLOCK);
    s.disconnect(Disconnect::ByApplication, "bye", "").unwrap();
    assert!(s.disconnected);
    let packets = take_wire(&mut s);
    assert_eq!(packets.len(), 1);
    let mut expected = vec![msg::DISCONNECT];
    expected.extend(be(11));
    expected.extend(be(3));
    expected.extend(b"bye");
    expected.extend(be(0));
    assert_eq!(packets, vec![expected]);
}
