use fsr_core::bytes::bytes_eq;
use fsr_core::bytes::push_u16_le;
use fsr_core::bytes::push_u32_le;
use fsr_core::bytes::read_u16_le;
use fsr_core::bytes::read_u32_le;
use fsr_core::codec::decode_list;
use fsr_core::codec::encode_list;
use fsr_core::recording::RecordingHashOracle;
use fsr_core::runtime::RandomOracle;
use fsr_core::runtime::StdRandomOracle;
use fsr_core::transcript::CanonicalDecode;
use fsr_core::transcript::CanonicalEncode;
use fsr_core::transcript::HashOracle;
use fsr_core::transcript::Transcript;
use fsr_core::transcript::U64Challenge;
use fsr_core::transcript::Absorb;
use fsr_core::transcript::Challenge;

#[test]
fn le_helpers_round_trip() {
    let mut out = Vec::new();
    push_u16_le(&mut out, 0xBEEF);
    push_u32_le(&mut out, 0xDEAD_1234);
    assert_eq!(out, vec![0xEF, 0xBE, 0x34, 0x12, 0xAD, 0xDE]);
    assert_eq!(read_u16_le(&out, 0), 0xBEEF);
    assert_eq!(read_u32_le(&out, 2), 0xDEAD_1234);
    assert!(bytes_eq(&out, &out.clone()));
    assert!(!bytes_eq(&out, &out[1..]));
}

#[test]
fn list_codec_round_trip() {
    let list: Vec<Vec<u8>> = vec![vec![], vec![1, 2, 3], vec![42]];
    let mut bytes = Vec::new();
    encode_list(&mut bytes, &list);
    let (back, end) = decode_list(&bytes, 0).expect("decode failed");
    assert_eq!(back, list);
    assert_eq!(end, bytes.len());
    // Truncations never decode.
    for cut in 0..bytes.len() {
        assert!(decode_list(&bytes[..cut], 0).is_none());
    }
}

#[test]
fn canonical_u64_round_trip() {
    let value: u64 = 0x0102_0304_0506_0708;
    let mut out = Vec::new();
    value.encode(&mut out);
    assert_eq!(out, vec![8, 7, 6, 5, 4, 3, 2, 1]);
    let (back, end) = <u64 as CanonicalDecode>::decode(&out, 0).expect("decode failed");
    assert_eq!(back, value);
    assert_eq!(end, 8);
    assert!(<u64 as CanonicalDecode>::decode(&out[..7], 0).is_none());
}

#[test]
fn std_random_oracle_is_deterministic_and_label_separated() {
    let mut a = StdRandomOracle::new();
    let mut b = StdRandomOracle::new();
    let d1 = a.H_full("label", b"data");
    let d2 = b.H_full("label", b"data");
    assert_eq!(d1, d2);
    assert_eq!(d1.len(), 32);
    assert_ne!(d1, a.H_full("other", b"data"));
    assert_ne!(d1, a.H_full("label", b"datb"));
    assert_eq!(a.H("label", b"data"), d1);
}

#[test]
fn transcript_into_events_drains_the_recorder() {
    let oracle = RecordingHashOracle::new(HashOracle::new(b"dom"));
    let t = Transcript::new(oracle, 0);
    let t = t.absorb_bytes("m_i", b"first");
    let (_c, t) = t.challenge::<U64Challenge>("e").expect("no obligations pending");
    let events = t.into_events();
    assert_eq!(events.len(), 2);
}

#[test]
fn oracle_mut_exposes_the_wrapped_oracle() {
    let oracle = HashOracle::new(b"dom");
    let mut t = Transcript::new(oracle, 0);
    t.oracle_mut().absorb_bytes("aux", b"side channel");
    let (c1, _) = t.challenge::<U64Challenge>("e").expect("no obligations");
    let oracle = HashOracle::new(b"dom");
    let t = Transcript::new(oracle, 0);
    let (c2, _) = t.challenge::<U64Challenge>("e").expect("no obligations");
    assert_ne!(c1, c2);
}

#[test]
fn u64_challenge_reduction_is_deterministic() {
    let a = U64Challenge::from_oracle_bytes("e", b"material");
    let b = U64Challenge::from_oracle_bytes("e", b"material");
    assert_eq!(a, b);
    let c = U64Challenge::from_oracle_bytes("e", b"other material");
    assert_ne!(a, c);
    let mut enc = Vec::new();
    a.encode(&mut enc);
    assert_eq!(enc, a.0.to_le_bytes().to_vec());
}
