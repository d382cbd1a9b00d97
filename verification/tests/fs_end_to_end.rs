use fsr_core::fs_proof::verify_fs;
use fsr_core::fs_proof::FsProof;
use fsr_core::fs_runtime::FSOracle;
use fsr_core::runtime::StdRandomOracle;
use fsr_core::runtime::TranscriptRuntime;
use fsr_core::toy_sigma::gadd;
use fsr_core::toy_sigma::smul;
use fsr_core::toy_sigma::ToySchnorrVerifier;

const MOD_P: u64 = 2_147_483_647;
const GEN_G: u64 = 5;
const SECRET_W: u64 = 1_234_567;

fn enc_u64(x: u64) -> Vec<u8> {
    x.to_le_bytes().to_vec()
}

fn dec_u64(bytes: &[u8]) -> u64 {
    let mut v = 0u64;
    for (i, &b) in bytes.iter().enumerate().take(8) {
        v |= (b as u64) << (8 * i);
    }
    v
}

fn challenge_scalar(e_bytes: &[u8]) -> u64 {
    dec_u64(e_bytes) % MOD_P
}

fn prove_fs(statement: &[u8], sid: &[u8], rho: u16, b: u8, w: u64) -> FsProof {
    let mut oracle = FSOracle::new(StdRandomOracle::new());
    oracle.absorb("mode", b"FS");
    oracle.absorb("x", statement);
    oracle.absorb("sid", sid);

    let mut nonces: Vec<u64> = Vec::new();
    let mut m: Vec<Vec<u8>> = Vec::new();
    for i in 0..rho as u64 {
        let r = (977 * i + 31) % MOD_P;
        nonces.push(r);
        let t = smul(r, GEN_G);
        let t_bytes = enc_u64(t);
        oracle.absorb("m_i", &t_bytes);
        m.push(t_bytes);
    }

    let chal_len = ((b as usize + 7) / 8).max(1);
    let mask_bits = b % 8;
    let mut z: Vec<Vec<u8>> = Vec::new();
    for i in 0..rho as usize {
        let mut e_bytes = oracle.derive_challenge("e_i", &[], chal_len);
        if mask_bits != 0 {
            if let Some(last) = e_bytes.last_mut() {
                *last &= (1u8 << mask_bits) - 1;
            }
        }
        let e_val = challenge_scalar(&e_bytes);
        let z_val = gadd(nonces[i] % MOD_P, smul(e_val, w));
        let z_bytes = enc_u64(z_val);
        oracle.absorb("e_i", &e_bytes);
        oracle.absorb("z_i", &z_bytes);
        z.push(z_bytes);
    }

    FsProof { m, z, rho, b }
}

#[test]
fn fs_prove_then_verify() {
    let statement = enc_u64(smul(SECRET_W, GEN_G));
    let sid = b"session-1".to_vec();
    let proof = prove_fs(&statement, &sid, 16, 8, SECRET_W);
    let checker = ToySchnorrVerifier { g: GEN_G, y: smul(SECRET_W, GEN_G) };
    let ok = verify_fs(
        FSOracle::new(StdRandomOracle::new()),
        &statement,
        &sid,
        &proof,
        &checker,
    );
    assert!(ok);
}

#[test]
fn fs_verify_rejects_mutated_statement() {
    let statement = enc_u64(smul(SECRET_W, GEN_G));
    let sid = b"session-1".to_vec();
    let proof = prove_fs(&statement, &sid, 16, 8, SECRET_W);
    let checker = ToySchnorrVerifier { g: GEN_G, y: smul(SECRET_W, GEN_G) };
    let mut mutated = statement.clone();
    mutated[0] ^= 1;
    let ok = verify_fs(
        FSOracle::new(StdRandomOracle::new()),
        &mutated,
        &sid,
        &proof,
        &checker,
    );
    assert!(!ok);
}

#[test]
fn fs_verify_rejects_malformed_proof() {
    let statement = enc_u64(smul(SECRET_W, GEN_G));
    let sid = b"session-1".to_vec();
    let mut proof = prove_fs(&statement, &sid, 4, 8, SECRET_W);
    proof.z.pop();
    let checker = ToySchnorrVerifier { g: GEN_G, y: smul(SECRET_W, GEN_G) };
    let ok = verify_fs(
        FSOracle::new(StdRandomOracle::new()),
        &statement,
        &sid,
        &proof,
        &checker,
    );
    assert!(!ok);
}

#[test]
fn fs_derive_challenge_is_deterministic_across_instances() {
    let mut a = FSOracle::new(StdRandomOracle::new());
    let mut b = FSOracle::new(StdRandomOracle::new());
    for oracle in [&mut a, &mut b] {
        oracle.absorb("mode", b"FS");
        oracle.absorb("x", b"statement");
        oracle.absorb("sid", b"sid-7");
        oracle.absorb("m_i", b"first message");
    }
    let ca = a.derive_challenge("e_i", &[], 16);
    let cb = b.derive_challenge("e_i", &[], 16);
    assert_eq!(ca, cb);
    // Drawing again against unchanged state yields the same bytes.
    let ca2 = a.derive_challenge("e_i", &[], 16);
    assert_eq!(ca, ca2);
    // A different label or extra input yields different bytes.
    let other = a.derive_challenge("e_j", &[], 16);
    let extra = a.derive_challenge("e_i", b"extra", 16);
    assert_ne!(ca, other);
    assert_ne!(ca, extra);
    // Absorbing more moves the transcript forward.
    a.absorb("m_i", b"second message");
    let moved = a.derive_challenge("e_i", &[], 16);
    assert_ne!(ca, moved);
    // Reset clears the transcript back to the start.
    a.reset();
    b.reset();
    assert_eq!(a.derive_challenge("e_i", &[], 16), b.derive_challenge("e_i", &[], 16));
}
