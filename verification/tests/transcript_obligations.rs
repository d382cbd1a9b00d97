use fsr_core::errors::ProveError;
use fsr_core::transcript::start_round;
use fsr_core::transcript::HashOracle;
use fsr_core::transcript::Transcript;
use fsr_core::transcript::U64Challenge;
use fsr_core::toy_sigma::ToyCommit;

#[test]
fn challenge_refused_while_obligations_pending() {
    let oracle = HashOracle::new(b"test-domain");
    let t = start_round(oracle, 0b1);
    match t.challenge::<U64Challenge>("e") {
        Err(ProveError::Malformed(_)) => {}
        other => panic!("challenge with pending mask yielded {:?}", other.map(|p| p.0)),
    }
}

#[test]
fn absorbing_the_message_clears_its_obligation() {
    let oracle = HashOracle::new(b"test-domain");
    let t = start_round(oracle, 0b1);
    let t = t.absorb("Commit", &ToyCommit { t: 42 });
    let (c, _t) = t.challenge::<U64Challenge>("e").expect("mask should be clear");
    let _ = c;
}

#[test]
fn unrelated_obligations_stay_pending() {
    let oracle = HashOracle::new(b"test-domain");
    // Two obligations; the commit message discharges only the first.
    let t = start_round(oracle, 0b11);
    let t = t.absorb("Commit", &ToyCommit { t: 42 });
    match t.challenge::<U64Challenge>("e") {
        Err(ProveError::Malformed(_)) => {}
        _ => panic!("challenge succeeded with an undischarged obligation"),
    }
}

#[test]
fn retag_reopens_the_round() {
    let oracle = HashOracle::new(b"test-domain");
    let t = Transcript::new(oracle, 0b1);
    let t = t.absorb("Commit", &ToyCommit { t: 7 });
    let (_c, t) = t.challenge::<U64Challenge>("e").expect("mask clear");
    // Next round: a fresh obligation blocks the next challenge again.
    let t = t.retag(0b1);
    assert!(t.challenge::<U64Challenge>("e2").is_err());
}

#[test]
fn raw_absorb_keeps_the_mask() {
    let oracle = HashOracle::new(b"test-domain");
    let t = start_round(oracle, 0b1);
    let t = t.absorb_bytes("aux", b"data");
    assert!(t.challenge::<U64Challenge>("e").is_err());
}

#[test]
fn challenges_are_deterministic_and_state_sensitive() {
    let prove = |extra: Option<&[u8]>| -> U64Challenge {
        let oracle = HashOracle::new(b"test-domain");
        let mut t = start_round(oracle, 0b1);
        if let Some(bytes) = extra {
            t = t.absorb_bytes("aux", bytes);
        }
        let t = t.absorb("Commit", &ToyCommit { t: 42 });
        let (c, _) = t.challenge::<U64Challenge>("e").expect("mask clear");
        c
    };
    assert_eq!(prove(None), prove(None));
    assert_ne!(prove(None), prove(Some(b"more")));
}

#[test]
fn into_inner_and_into_oracle_hand_back_the_oracle() {
    let oracle = HashOracle::new(b"test-domain");
    let t = start_round(oracle, 0);
    let oracle = t.into_inner();
    let t = Transcript::new(oracle, 0);
    let _oracle = t.into_oracle();
}
