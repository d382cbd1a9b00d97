use fsr_core::errors::ProveError;
use fsr_core::fischlin::search_with_retry;
use fsr_core::frame::decode_frame;
use fsr_core::frame::encode_frame;
use fsr_core::toy_sigma::ScriptedAttempt;

#[test]
fn frame_round_trip() {
    let frame = encode_frame("e_i", b"payload bytes");
    let (label, payload) = decode_frame(&frame).expect("decode failed");
    assert_eq!(label, b"e_i".to_vec());
    assert_eq!(payload, b"payload bytes".to_vec());
}

#[test]
fn frame_round_trip_empty_payload() {
    let frame = encode_frame("challenge", b"");
    let (label, payload) = decode_frame(&frame).expect("decode failed");
    assert_eq!(label, b"challenge".to_vec());
    assert!(payload.is_empty());
}

#[test]
fn frame_exact_layout() {
    let frame = encode_frame("ab", &[0x10, 0x20, 0x30]);
    let expected: Vec<u8> = vec![
        1, // challenge tag
        2, 0, // label length, little-endian
        b'a', b'b', // label bytes
        3, 0, // payload length, little-endian
        0x10, 0x20, 0x30, // payload
    ];
    assert_eq!(frame, expected);
}

#[test]
fn frame_decode_rejects_bad_tag_and_truncation() {
    let frame = encode_frame("e_i", b"payload");
    let mut bad = frame.clone();
    bad[0] = 2;
    assert!(decode_frame(&bad).is_none());
    for cut in 0..frame.len() {
        assert!(decode_frame(&frame[..cut]).is_none(), "prefix {cut} decoded");
    }
}

#[test]
fn retry_harness_retries_until_success() {
    let mut attempt = ScriptedAttempt { succeed_at: 3, value: 7 };
    let r = search_with_retry(0u64, 10, &mut attempt);
    assert_eq!(r, Ok(7));
}

#[test]
fn retry_harness_gives_up_after_the_budget() {
    let mut attempt = ScriptedAttempt { succeed_at: 5, value: 7 };
    let r = search_with_retry(0u64, 3, &mut attempt);
    assert_eq!(r, Err(ProveError::RetryNeeded));
}

#[test]
fn retry_harness_runs_at_least_one_attempt() {
    let mut attempt = ScriptedAttempt { succeed_at: 0, value: 11 };
    let r = search_with_retry(0u64, 0, &mut attempt);
    assert_eq!(r, Ok(11));
}
