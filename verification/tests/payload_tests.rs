use h1core::error::PayloadError;
use h1core::payload::{ChunkPoll, PayloadChannel, PayloadStatus};

#[test]
fn test_channel_order() {
    let mut ch = PayloadChannel::new();
    assert!(matches!(ch.poll_chunk(), ChunkPoll::Pending));
    ch.feed_data(b"ab".to_vec());
    ch.feed_data(b"cd".to_vec());
    ch.feed_eof();
    match ch.poll_chunk() {
        ChunkPoll::Data(d) => assert_eq!(d, b"ab".to_vec()),
        _ => panic!("chunks come out in arrival order"),
    }
    match ch.poll_chunk() {
        ChunkPoll::Data(d) => assert_eq!(d, b"cd".to_vec()),
        _ => panic!("chunks come out in arrival order"),
    }
    assert!(matches!(ch.poll_chunk(), ChunkPoll::Eof));
}

#[test]
fn test_channel_error_handed_over_once() {
    let mut ch = PayloadChannel::new();
    ch.set_error(PayloadError::Overflow);
    assert!(matches!(ch.poll_chunk(), ChunkPoll::Failed(PayloadError::Overflow)));
    assert!(matches!(ch.poll_chunk(), ChunkPoll::Pending));
}

#[test]
fn test_channel_readiness() {
    let mut ch = PayloadChannel::new();
    assert_eq!(ch.need_read(), PayloadStatus::Read);
    ch.signal(PayloadStatus::Pause);
    assert_eq!(ch.need_read(), PayloadStatus::Pause);
    ch.signal(PayloadStatus::Read);
    assert_eq!(ch.need_read(), PayloadStatus::Read);
}
