use tristim::driver::i1d3::report::parse_version;
use tristim::driver::i1d3::unlock::{unlock_keys, unlock_response};

fn test_challenge() -> [u8; 64] {
    let mut c = [0u8; 64];
    c[2] = 0x5a; // response XOR byte
    c[3] = 0xa5; // sub-challenge XOR byte
    for i in 0..8 {
        c[35 + i] = 0x10 * i as u8 + 3;
    }
    c
}

/// Only bytes 24..40 carry the response; everything else must be zero.
#[test]
fn response_is_zero_outside_payload() {
    let r = unlock_response(unlock_keys()[0].key, &test_challenge());
    for (i, &b) in r.iter().enumerate() {
        if !(24..40).contains(&i) {
            assert_eq!(b, 0, "byte {i} not zero");
        }
    }
}

/// Different keys must produce different responses to the same challenge.
#[test]
fn keys_produce_distinct_responses() {
    let c = test_challenge();
    let r0 = unlock_response(unlock_keys()[0].key, &c);
    let r1 = unlock_response(unlock_keys()[1].key, &c);
    assert_ne!(r0[24..40], r1[24..40]);
}

/// A fixed challenge and key must keep producing these exact bytes.
#[test]
fn known_answer_snapshot() {
    let r = unlock_response([0xe962_2e9f, 0x8d63_e133], &test_challenge());
    assert_eq!(
        &r[24..40],
        &[
            0xcf, 0xaa, 0xcd, 0x99, 0x16, 0xd6, 0x57, 0x38, 0x94, 0x11, 0x42, 0x75, 0x4a, 0x52,
            0x5e, 0xcb
        ],
        "unlock transform changed"
    );
}

#[test]
fn version_parsing() {
    assert_eq!(parse_version("v1.3"), (1, 3));
    assert_eq!(parse_version("2.10"), (2, 10));
    assert_eq!(parse_version("garbage"), (0, 0));
}
