use fsr_core::fischlin_proof::FischlinProof;
use fsr_core::fs_proof::FsProof;

fn sample_fs() -> FsProof {
    FsProof {
        m: vec![vec![1u8, 2, 3], vec![4u8]],
        z: vec![vec![5u8, 6], vec![]],
        rho: 2,
        b: 8,
    }
}

fn sample_fischlin() -> FischlinProof {
    FischlinProof {
        m: vec![vec![9u8], vec![8u8, 7]],
        e: vec![vec![1u8, 0], vec![2u8, 0]],
        z: vec![vec![3u8], vec![4u8]],
        b: 4,
        rho: 2,
    }
}

#[test]
fn fs_round_trip() {
    let p = sample_fs();
    let bytes = p.encode();
    let q = FsProof::decode(&bytes).expect("decode");
    assert_eq!(p, q);
}

#[test]
fn fs_round_trip_with_trailing_bytes() {
    let p = sample_fs();
    let mut bytes = p.encode();
    bytes.push(0xAB);
    bytes.push(0xCD);
    let q = FsProof::decode(&bytes).expect("decode");
    assert_eq!(p, q);
}

#[test]
fn fs_exact_layout() {
    let p = FsProof { m: vec![vec![0xAA]], z: vec![vec![0xBB, 0xCC]], rho: 1, b: 9 };
    let bytes = p.encode();
    let expected: Vec<u8> = vec![
        b'F', b'S', 0, // tag
        1, 0, // rho, little-endian
        9, // b
        1, 0, 0, 0, // one first message
        1, 0, 0, 0, 0xAA, // its length and bytes
        1, 0, 0, 0, // one response
        2, 0, 0, 0, 0xBB, 0xCC, // its length and bytes
    ];
    assert_eq!(bytes, expected);
}

#[test]
fn fs_decode_rejects_bad_tag() {
    let p = sample_fs();
    let mut bytes = p.encode();
    bytes[0] = b'G';
    assert!(FsProof::decode(&bytes).is_none());
}

#[test]
fn fs_decode_rejects_truncation() {
    let p = sample_fs();
    let bytes = p.encode();
    for cut in 0..bytes.len() {
        // Any strict prefix is missing either header bytes or list items.
        let r = FsProof::decode(&bytes[..cut]);
        if cut < bytes.len() {
            assert!(r.is_none(), "prefix of length {cut} decoded");
        }
    }
}

#[test]
fn fs_well_formed() {
    let p = sample_fs();
    assert!(p.is_well_formed());
    assert_eq!(p.len(), 2);
    let bad_rho = FsProof { rho: 3, ..sample_fs() };
    assert!(!bad_rho.is_well_formed());
    let bad_b = FsProof { b: 0, ..sample_fs() };
    assert!(!bad_b.is_well_formed());
    let mut bad_lists = sample_fs();
    bad_lists.z.pop();
    assert!(!bad_lists.is_well_formed());
}

#[test]
fn fischlin_round_trip() {
    let p = sample_fischlin();
    let bytes = p.encode();
    let q = FischlinProof::decode(&bytes).expect("decode");
    assert_eq!(p, q);
}

#[test]
fn fischlin_exact_layout() {
    let p = FischlinProof {
        m: vec![vec![0x11]],
        e: vec![vec![0x22]],
        z: vec![vec![0x33]],
        b: 4,
        rho: 1,
    };
    let bytes = p.encode();
    let expected: Vec<u8> = vec![
        b'F', b'I', b'S', b'C', b'H', b'L', b'I', b'N', 0, // tag
        1, 0, // rho, little-endian
        4, // b
        1, 0, 0, 0, 1, 0, 0, 0, 0x11, // m
        1, 0, 0, 0, 1, 0, 0, 0, 0x22, // e
        1, 0, 0, 0, 1, 0, 0, 0, 0x33, // z
    ];
    assert_eq!(bytes, expected);
}

#[test]
fn fischlin_decode_rejects_bad_tag_and_truncation() {
    let p = sample_fischlin();
    let bytes = p.encode();
    let mut bad = bytes.clone();
    bad[3] = b'X';
    assert!(FischlinProof::decode(&bad).is_none());
    for cut in 0..bytes.len() {
        assert!(FischlinProof::decode(&bytes[..cut]).is_none());
    }
}

#[test]
fn fischlin_decode_rejects_overlong_length_prefix() {
    let p = sample_fischlin();
    let mut bytes = p.encode();
    // Claim the first item of `m` is far longer than the input.
    bytes[12] = 0xFF;
    bytes[13] = 0xFF;
    assert!(FischlinProof::decode(&bytes).is_none());
}

#[test]
fn fischlin_well_formed() {
    let p = sample_fischlin();
    assert!(p.is_well_formed());
    assert_eq!(p.len(), 2);
    let bad = FischlinProof { rho: 5, ..sample_fischlin() };
    assert!(!bad.is_well_formed());
}
