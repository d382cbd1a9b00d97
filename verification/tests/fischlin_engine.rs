use fsr_core::errors::ProveError;
use fsr_core::fischlin::ceil_log2_n_minus_1;
use fsr_core::fischlin::ceil_log2_u32;
use fsr_core::fischlin::FischlinOracle;
use fsr_core::fischlin::FischlinParams;
use fsr_core::runtime::trunc_b_to_u64;
use fsr_core::runtime::StdRandomOracle;
use fsr_core::toy_sigma::smul;
use fsr_core::toy_sigma::ToyResponder;
use fsr_core::toy_sigma::ToyResponseStream;

const MOD_P: u64 = 2_147_483_647;
const GEN_G: u64 = 5;
const SECRET_W: u64 = 424_243;

#[test]
fn params_builders() {
    let p = FischlinParams::new(32, 8);
    assert_eq!(p.rho, 32);
    assert_eq!(p.b, 8);
    assert_eq!(p.t, 13); // b + 5 for up to 64 repetitions
    assert_eq!(p.kappa_c, 128);
    assert_eq!(p.n_special, 2);
    let q = FischlinParams::new(100, 8);
    assert_eq!(q.t, 14); // b + 6 above 64 repetitions
    let r = FischlinParams::new(1, 253);
    assert_eq!(r.t, 255); // saturates
    let s = p.with_t(9).with_kappa(64).with_n_special(4);
    assert_eq!(s.t, 9);
    assert_eq!(s.kappa_c, 64);
    assert_eq!(s.n_special, 4);
    assert_eq!(p.with_n_special(0).n_special, 2);
}

#[test]
fn ceil_log2_values() {
    assert_eq!(ceil_log2_u32(0), 0);
    assert_eq!(ceil_log2_u32(1), 0);
    assert_eq!(ceil_log2_u32(2), 1);
    assert_eq!(ceil_log2_u32(3), 2);
    assert_eq!(ceil_log2_u32(4), 2);
    assert_eq!(ceil_log2_u32(5), 3);
    assert_eq!(ceil_log2_u32(1024), 10);
    assert_eq!(ceil_log2_u32(1025), 11);
    assert_eq!(ceil_log2_n_minus_1(2), 0);
    assert_eq!(ceil_log2_n_minus_1(3), 1);
    assert_eq!(ceil_log2_n_minus_1(5), 2);
    assert_eq!(ceil_log2_n_minus_1(9), 3);
}

#[test]
fn trunc_extracts_low_bits() {
    assert_eq!(trunc_b_to_u64(&[0xFF, 0xFF, 0xFF, 0xFF, 0xFF, 0xFF, 0xFF, 0xFF], 4), 0xF);
    assert_eq!(trunc_b_to_u64(&[0xB5], 3), 0b101);
    assert_eq!(trunc_b_to_u64(&[0x34, 0x12], 16), 0x1234);
    assert_eq!(trunc_b_to_u64(&[0x34, 0x12], 12), 0x234);
    assert_eq!(trunc_b_to_u64(&[1, 2, 3, 4, 5, 6, 7, 8], 56), 0x07060504030201);
    assert_eq!(trunc_b_to_u64(&[0xAA], 0), 0);
}

#[test]
fn push_before_begin_is_malformed() {
    let params = FischlinParams::new(1, 4).with_kappa(4);
    let mut oracle = FischlinOracle::new(StdRandomOracle::new(), params);
    let r = oracle.push_first_message(b"too early");
    assert!(matches!(r, Err(ProveError::Malformed(_))));
    let r = oracle.seal_first_messages();
    assert!(matches!(r, Err(ProveError::Malformed(_))));
    let r = oracle.search_round(0, &ToyResponder { w: 1, r: 1 });
    assert!(matches!(r, Err(ProveError::Malformed(_))));
    assert!(oracle.predicate_prefix(0).is_err());
}

#[test]
fn seal_rejects_wrong_count() {
    let params = FischlinParams::new(2, 8).with_kappa(16);
    let mut oracle = FischlinOracle::new(StdRandomOracle::new(), params);
    oracle.begin(b"x", b"sid");
    oracle.push_first_message(b"only one").unwrap();
    let r = oracle.seal_first_messages();
    assert!(matches!(r, Err(ProveError::Malformed(_))));
}

#[test]
fn soundness_gate() {
    // rho * b == 8 bits, far below the 128-bit target: unsound.
    let params = FischlinParams::new(4, 2).with_kappa(128).with_n_special(2);
    let mut oracle = FischlinOracle::new(StdRandomOracle::new(), params);
    oracle.begin(b"x", b"sid");
    for _ in 0..4 {
        oracle.push_first_message(b"m").unwrap();
    }
    let r = oracle.seal_first_messages();
    assert!(matches!(r, Err(ProveError::UnsoundParams(_))));

    // rho * b == 256 >= 128: accepted.
    let params = FischlinParams::new(32, 8);
    let mut oracle = FischlinOracle::new(StdRandomOracle::new(), params);
    oracle.begin(b"x", b"sid");
    for _ in 0..32 {
        oracle.push_first_message(b"m").unwrap();
    }
    assert!(oracle.seal_first_messages().is_ok());

    // n-special soundness loss: with n = 5 the effective width shrinks
    // by two bits per repetition.
    let params = FischlinParams::new(4, 2).with_kappa(1).with_n_special(5);
    let mut oracle = FischlinOracle::new(StdRandomOracle::new(), params);
    oracle.begin(b"x", b"sid");
    for _ in 0..4 {
        oracle.push_first_message(b"m").unwrap();
    }
    let r = oracle.seal_first_messages();
    assert!(matches!(r, Err(ProveError::UnsoundParams(_))));
}

#[test]
fn search_round_finds_hits_and_survives_exhaustion() {
    // b = 4: a trial hits with chance 1 in 16. Searching 2^9 candidates
    // must find a hit for every seed tried; a search width of zero must
    // come back asking for a retry at least once, never panicking.
    let mut hits_wide = 0;
    let mut retries_narrow = 0;
    for seed in 0u64..12 {
        let sid = seed.to_le_bytes();

        let params = FischlinParams::new(1, 4).with_kappa(4).with_t(9);
        let mut oracle = FischlinOracle::new(StdRandomOracle::new(), params);
        oracle.begin(b"statement", &sid);
        let t = smul(seed % MOD_P + 1, GEN_G);
        oracle.push_first_message(&t.to_le_bytes()).unwrap();
        oracle.seal_first_messages().unwrap();
        let gen = ToyResponder { w: SECRET_W, r: seed % MOD_P + 1 };
        match oracle.search_round(0, &gen) {
            Ok((e, z)) => {
                assert!(e.len() == 2);
                assert!(!z.is_empty());
                hits_wide += 1;
            }
            Err(e) => assert_eq!(e, ProveError::RetryNeeded),
        }

        let params = FischlinParams::new(1, 4).with_kappa(4).with_t(0);
        let mut oracle = FischlinOracle::new(StdRandomOracle::new(), params);
        oracle.begin(b"statement", &sid);
        oracle.push_first_message(&t.to_le_bytes()).unwrap();
        oracle.seal_first_messages().unwrap();
        match oracle.search_round(0, &gen) {
            Ok(_) => {}
            Err(e) => {
                assert_eq!(e, ProveError::RetryNeeded);
                retries_narrow += 1;
            }
        }
    }
    assert_eq!(hits_wide, 12, "a 9-bit search over a 4-bit predicate missed");
    assert!(retries_narrow > 0, "single-candidate searches never exhausted");
}

#[test]
fn search_round_stream_matches_plain_search() {
    let params = FischlinParams::new(1, 4).with_kappa(4).with_t(9);
    let nonce = 777_777u64;

    let mut a = FischlinOracle::new(StdRandomOracle::new(), params);
    a.begin(b"statement", b"sid-0");
    a.push_first_message(b"m0").unwrap();
    a.seal_first_messages().unwrap();
    let ra = a.search_round(0, &ToyResponder { w: SECRET_W, r: nonce });

    let mut b = FischlinOracle::new(StdRandomOracle::new(), params);
    b.begin(b"statement", b"sid-0");
    b.push_first_message(b"m0").unwrap();
    b.seal_first_messages().unwrap();
    // Trial k answers with r + k * w: the same responses the plain
    // responder computes for the enumerated challenges.
    let mut stream = ToyResponseStream { cur: nonce % MOD_P, w: SECRET_W };
    let rb = b.search_round_stream(0, &mut stream);

    assert_eq!(ra, rb);
}

#[test]
fn verify_predicate_matches_search_result() {
    let params = FischlinParams::new(1, 4).with_kappa(4).with_t(9);
    let mut oracle = FischlinOracle::new(StdRandomOracle::new(), params);
    oracle.begin(b"statement", b"sid-1");
    oracle.push_first_message(b"m0").unwrap();
    oracle.seal_first_messages().unwrap();
    let (e, z) = oracle
        .search_round(0, &ToyResponder { w: SECRET_W, r: 99 })
        .expect("search found no hit");
    assert!(oracle.verify_predicate(0, b"m0", &e, &z));
    let mut bad = e.clone();
    bad[0] ^= 1;
    assert!(!oracle.verify_predicate(0, b"m0", &bad, &z));
}
