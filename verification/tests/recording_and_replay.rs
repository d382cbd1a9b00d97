use fsr_core::recording::RecEvent;
use fsr_core::recording::RecordingHashOracle;
use fsr_core::replay::prove;
use fsr_core::replay::verify;
use fsr_core::replay::FieldSource;
use fsr_core::replay::FieldTemplate;
use fsr_core::toy_sigma::gadd;
use fsr_core::toy_sigma::smul;
use fsr_core::toy_sigma::ToySchnorrCheck;
use fsr_core::transcript::Absorb;
use fsr_core::transcript::HashOracle;
use fsr_core::transcript::Oracle;
use fsr_core::transcript::U64Challenge;

const MOD_P: u64 = 2_147_483_647;
const GEN_G: u64 = 5;
const SECRET_W: u64 = 31_337;
const DOMAIN: &[u8] = b"toy-schnorr";

fn fields() -> Vec<FieldTemplate> {
    vec![
        FieldTemplate { source: FieldSource::Absorb, label: "Commit.t" },
        FieldTemplate { source: FieldSource::Challenge, label: "e" },
        FieldTemplate { source: FieldSource::Absorb, label: "Schnorr.z" },
    ]
}

/// An interactive-style proving run over a recording oracle: the timeline
/// it leaves behind is the only artifact the proof is built from.
fn record_proving_run(w: u64, r: u64) -> Vec<RecEvent> {
    let mut oracle = RecordingHashOracle::new(HashOracle::new(DOMAIN));
    let t = smul(r, GEN_G);
    oracle.absorb_bytes("Commit.t", &t.to_le_bytes());
    let e: U64Challenge = oracle.challenge("e");
    let e_val = e.0 % MOD_P;
    let z = gadd(r % MOD_P, smul(e_val, w));
    oracle.absorb_bytes("Schnorr.z", &z.to_le_bytes());
    let (_inner, events) = oracle.into_parts();
    events
}

#[test]
fn recorded_events_replay_into_an_accepting_proof() {
    let events = record_proving_run(SECRET_W, 991);
    let values = prove(&events, &fields()).expect("extraction failed");
    assert_eq!(values.len(), 3);
    let check = ToySchnorrCheck { g: GEN_G, y: smul(SECRET_W, GEN_G) };
    assert!(verify::<U64Challenge, _>(DOMAIN, &fields(), &values, &check));
}

#[test]
fn replay_rejects_any_flipped_byte() {
    let events = record_proving_run(SECRET_W, 991);
    let values = prove(&events, &fields()).expect("extraction failed");
    let check = ToySchnorrCheck { g: GEN_G, y: smul(SECRET_W, GEN_G) };
    for i in 0..values.len() {
        for j in 0..values[i].len() {
            let mut bad = values.clone();
            bad[i][j] ^= 1;
            assert!(
                !verify::<U64Challenge, _>(DOMAIN, &fields(), &bad, &check),
                "flipping values[{i}][{j}] was not caught"
            );
        }
    }
}

#[test]
fn replay_rejects_wrong_public_key() {
    let events = record_proving_run(SECRET_W, 991);
    let values = prove(&events, &fields()).expect("extraction failed");
    let check = ToySchnorrCheck { g: GEN_G, y: smul(SECRET_W + 1, GEN_G) };
    assert!(!verify::<U64Challenge, _>(DOMAIN, &fields(), &values, &check));
}

#[test]
fn extraction_fails_on_a_missing_field() {
    let mut events = record_proving_run(SECRET_W, 991);
    events.pop();
    assert!(prove(&events, &fields()).is_none());
}

#[test]
fn extraction_consumes_events_in_order() {
    let events = record_proving_run(SECRET_W, 991);
    // Asking for the response before the commitment cannot rewind.
    let backwards = vec![
        FieldTemplate { source: FieldSource::Absorb, label: "Schnorr.z" },
        FieldTemplate { source: FieldSource::Absorb, label: "Commit.t" },
    ];
    assert!(prove(&events, &backwards).is_none());
}

#[test]
fn find_absorb_and_find_challenge_return_the_latest_entry() {
    let mut oracle = RecordingHashOracle::new(HashOracle::new(DOMAIN));
    oracle.absorb_bytes("Commit.t", b"first");
    oracle.absorb_bytes("Commit.t", b"second");
    let _c: U64Challenge = oracle.challenge("e");
    assert_eq!(oracle.find_absorb("Commit.t").map(|v| v.as_slice()), Some(&b"second"[..]));
    assert!(oracle.find_absorb("missing").is_none());
    assert!(oracle.find_challenge("e").is_some());
    assert!(oracle.find_challenge("Commit.t").is_none());
    assert_eq!(oracle.events().len(), 3);
}

#[test]
fn recording_never_alters_oracle_output() {
    let mut plain = HashOracle::new(DOMAIN);
    plain.absorb_bytes("Commit.t", b"value");
    let direct: U64Challenge = plain.challenge("e");

    let mut recorded = RecordingHashOracle::new(HashOracle::new(DOMAIN));
    recorded.absorb_bytes("Commit.t", b"value");
    let wrapped: U64Challenge = recorded.challenge("e");

    assert_eq!(direct, wrapped);
}
