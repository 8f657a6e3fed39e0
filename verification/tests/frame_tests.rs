use citadel_workspace_service::codec::{decode_response, encode_response};
use citadel_workspace_service::frame::{encode_frame, try_decode_frame, FrameStatus, MAX_FRAME_PAYLOAD};
use citadel_workspace_service::types::InternalServiceResponse;

#[test]
fn frame_has_length_prefix() {
    let payload = vec![0xaa, 0xbb, 0xcc];
    let frame = encode_frame(&payload).unwrap();
    assert_eq!(frame, vec![0, 0, 0, 3, 0xaa, 0xbb, 0xcc]);
}

#[test]
fn frame_round_trip() {
    let payload = vec![5u8; 1000];
    let frame = encode_frame(&payload).unwrap();
    match try_decode_frame(&frame) {
        FrameStatus::Ready { payload: p, consumed } => {
            assert_eq!(p, payload);
            assert_eq!(consumed, frame.len());
        }
        other => panic!("expected a whole frame, got {other:?}"),
    }
}

#[test]
fn frame_decode_leaves_following_bytes() {
    let payload = vec![1u8, 2, 3];
    let mut buf = encode_frame(&payload).unwrap();
    buf.extend_from_slice(&[9, 9, 9]);
    match try_decode_frame(&buf) {
        FrameStatus::Ready { payload: p, consumed } => {
            assert_eq!(p, payload);
            assert_eq!(consumed, 7);
        }
        other => panic!("expected a whole frame, got {other:?}"),
    }
}

#[test]
fn short_buffer_is_incomplete() {
    assert_eq!(try_decode_frame(&vec![]), FrameStatus::Incomplete);
    assert_eq!(try_decode_frame(&vec![0, 0, 0]), FrameStatus::Incomplete);
    // announced length 5, only 2 payload bytes present
    assert_eq!(try_decode_frame(&vec![0, 0, 0, 5, 1, 2]), FrameStatus::Incomplete);
}

#[test]
fn oversized_length_is_refused() {
    // length prefix announces MAX_FRAME_PAYLOAD + 1 bytes
    let n = (MAX_FRAME_PAYLOAD + 1) as u32;
    let buf = vec![
        (n >> 24) as u8,
        (n >> 16) as u8,
        (n >> 8) as u8,
        n as u8,
    ];
    assert_eq!(try_decode_frame(&buf), FrameStatus::TooLong);
    let too_big = vec![0u8; MAX_FRAME_PAYLOAD + 1];
    assert_eq!(encode_frame(&too_big), None);
}

#[test]
fn greeting_travels_first_and_intact() {
    // What a client sees first on its socket: one frame whose payload
    // decodes to the greeting carrying its session id.
    let greeting = InternalServiceResponse::ServiceConnectionAccepted { id: 31337 };
    let frame = encode_frame(&encode_response(&greeting)).unwrap();
    match try_decode_frame(&frame) {
        FrameStatus::Ready { payload, consumed } => {
            assert_eq!(consumed, frame.len());
            assert_eq!(decode_response(&payload), Some(greeting));
        }
        other => panic!("expected a whole frame, got {other:?}"),
    }
}

#[test]
fn payload_at_the_cap_is_accepted() {
    let payload = vec![7u8; MAX_FRAME_PAYLOAD];
    let frame = encode_frame(&payload).unwrap();
    assert_eq!(frame.len(), MAX_FRAME_PAYLOAD + 4);
    match try_decode_frame(&frame) {
        FrameStatus::Ready { payload: p, consumed } => {
            assert_eq!(consumed, frame.len());
            assert_eq!(p.len(), MAX_FRAME_PAYLOAD);
        }
        other => panic!("expected a whole frame, got {other:?}"),
    }
}
