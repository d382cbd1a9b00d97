use fsr_core::errors::ProveError;
use fsr_core::fischlin::FischlinOracle;
use fsr_core::fischlin::FischlinParams;
use fsr_core::fischlin_proof::verify_fischlin;
use fsr_core::fischlin_proof::FischlinProof;
use fsr_core::runtime::StdRandomOracle;
use fsr_core::toy_sigma::smul;
use fsr_core::toy_sigma::ToyResponder;
use fsr_core::toy_sigma::ToySchnorrVerifier;

const MOD_P: u64 = 2_147_483_647;
const GEN_G: u64 = 5;
const SECRET_W: u64 = 1_234_567;

fn toy_params() -> FischlinParams {
    FischlinParams::new(8, 4).with_kappa(32)
}

fn prove_fischlin(statement: &[u8], sid: &[u8], w: u64) -> Result<FischlinProof, ProveError> {
    let params = toy_params();
    let mut oracle = FischlinOracle::new(StdRandomOracle::new(), params);
    oracle.begin(statement, sid);

    let mut nonces: Vec<u64> = Vec::new();
    let mut m: Vec<Vec<u8>> = Vec::new();
    for i in 0..params.rho as u64 {
        let r = (1_009 * i + 77) % MOD_P;
        nonces.push(r);
        let t = smul(r, GEN_G);
        let t_bytes = t.to_le_bytes().to_vec();
        oracle.push_first_message(&t_bytes)?;
        m.push(t_bytes);
    }
    oracle.seal_first_messages()?;

    let mut e: Vec<Vec<u8>> = Vec::new();
    let mut z: Vec<Vec<u8>> = Vec::new();
    for i in 0..params.rho as usize {
        let gen = ToyResponder { w, r: nonces[i] };
        let (e_i, z_i) = oracle.search_round(i as u32, &gen)?;
        e.push(e_i);
        z.push(z_i);
    }
    Ok(FischlinProof { m, e, z, b: params.b, rho: params.rho })
}

#[test]
fn fischlin_prove_then_verify() {
    let statement = smul(SECRET_W, GEN_G).to_le_bytes().to_vec();
    let sid = b"fischlin-session".to_vec();
    let proof = prove_fischlin(&statement, &sid, SECRET_W).expect("proving failed");
    let checker = ToySchnorrVerifier { g: GEN_G, y: smul(SECRET_W, GEN_G) };
    let ok = verify_fischlin(
        StdRandomOracle::new(),
        toy_params(),
        &statement,
        &sid,
        &proof,
        &checker,
    );
    assert!(ok);
}

#[test]
fn fischlin_verify_rejects_any_flipped_challenge_or_response_byte() {
    let statement = smul(SECRET_W, GEN_G).to_le_bytes().to_vec();
    let sid = b"fischlin-session".to_vec();
    let proof = prove_fischlin(&statement, &sid, SECRET_W).expect("proving failed");
    let checker = ToySchnorrVerifier { g: GEN_G, y: smul(SECRET_W, GEN_G) };
    for i in 0..proof.e.len() {
        for j in 0..proof.e[i].len() {
            let mut bad = proof.clone();
            bad.e[i][j] ^= 1;
            assert!(
                !verify_fischlin(
                    StdRandomOracle::new(),
                    toy_params(),
                    &statement,
                    &sid,
                    &bad,
                    &checker,
                ),
                "flipping e[{i}][{j}] was not caught"
            );
        }
    }
    for i in 0..proof.z.len() {
        for j in 0..proof.z[i].len() {
            let mut bad = proof.clone();
            bad.z[i][j] ^= 1;
            assert!(
                !verify_fischlin(
                    StdRandomOracle::new(),
                    toy_params(),
                    &statement,
                    &sid,
                    &bad,
                    &checker,
                ),
                "flipping z[{i}][{j}] was not caught"
            );
        }
    }
}

#[test]
fn fischlin_verify_rejects_parameter_mismatch_and_unsound_params() {
    let statement = smul(SECRET_W, GEN_G).to_le_bytes().to_vec();
    let sid = b"fischlin-session".to_vec();
    let proof = prove_fischlin(&statement, &sid, SECRET_W).expect("proving failed");
    let checker = ToySchnorrVerifier { g: GEN_G, y: smul(SECRET_W, GEN_G) };
    // The proof's embedded parameters differ from the caller's.
    let other = FischlinParams::new(16, 4).with_kappa(32);
    assert!(!verify_fischlin(
        StdRandomOracle::new(),
        other,
        &statement,
        &sid,
        &proof,
        &checker,
    ));
    // The caller's parameters do not meet the soundness bound.
    let unsound = toy_params().with_kappa(128);
    assert!(!verify_fischlin(
        StdRandomOracle::new(),
        unsound,
        &statement,
        &sid,
        &proof,
        &checker,
    ));
}

#[test]
fn fischlin_verify_round_trips_through_bytes() {
    let statement = smul(SECRET_W, GEN_G).to_le_bytes().to_vec();
    let sid = b"fischlin-session".to_vec();
    let proof = prove_fischlin(&statement, &sid, SECRET_W).expect("proving failed");
    let bytes = proof.encode();
    let decoded = FischlinProof::decode(&bytes).expect("decode failed");
    assert_eq!(proof, decoded);
    let checker = ToySchnorrVerifier { g: GEN_G, y: smul(SECRET_W, GEN_G) };
    assert!(verify_fischlin(
        StdRandomOracle::new(),
        toy_params(),
        &statement,
        &sid,
        &decoded,
        &checker,
    ));
}
