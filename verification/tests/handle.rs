use russh_core::handle::{confirmation_step, stream_step, tx_chunk_len, ConfirmStep, StreamEvent, StreamStep};
use russh_core::msg::ChannelMsg;
use russh_core::ChannelId;
use russh_cryptovec::CryptoVec;

#[test]
fn confirmation_takes_the_first_open_event() {
    match confirmation_step(Some(ChannelMsg::Open {
        id: ChannelId(4),
        max_packet_size: 512,
        window_size: 1024,
    })) {
        ConfirmStep::Accept { id, max_packet_size, window_size } => {
            assert_eq!(id, ChannelId(4));
            assert_eq!(max_packet_size, 512);
            assert_eq!(window_size, 1024);
        }
        _ => panic!("expected acceptance"),
    }
    assert!(matches!(confirmation_step(Some(ChannelMsg::Eof)), ConfirmStep::Skip));
    assert!(matches!(confirmation_step(None), ConfirmStep::Fail));
}

#[test]
fn stream_bridge_decisions() {
    assert!(matches!(
        stream_step(StreamEvent::Outbound(Some(vec![1, 2]))),
        StreamStep::SendData(d) if d == vec![1, 2]
    ));
    assert!(matches!(
        stream_step(StreamEvent::Outbound(Some(Vec::new()))),
        StreamStep::SendEofAndClose
    ));
    assert!(matches!(stream_step(StreamEvent::Outbound(None)), StreamStep::SendClose));
    assert!(matches!(
        stream_step(StreamEvent::Inbound(Some(ChannelMsg::Data {
            data: CryptoVec::from_slice(b"hi")
        }))),
        StreamStep::ForwardData(d) if d.as_ref() == b"hi"
    ));
    assert!(matches!(
        stream_step(StreamEvent::Inbound(Some(ChannelMsg::Eof))),
        StreamStep::ForwardEof
    ));
    assert!(matches!(stream_step(StreamEvent::Inbound(None)), StreamStep::Stop));
    assert!(matches!(
        stream_step(StreamEvent::Inbound(Some(ChannelMsg::Success))),
        StreamStep::Ignore
    ));
}

#[test]
fn tx_chunks_respect_window_and_packet_bound() {
    assert_eq!(tx_chunk_len(100, 50, 200), 50);
    assert_eq!(tx_chunk_len(30, 50, 200), 30);
    assert_eq!(tx_chunk_len(100, 50, 10), 10);
    assert_eq!(tx_chunk_len(0, 50, 10), 0);
}
