use rpc_client::codec::{decode_envelope, encode_envelope, scan_frame, ScanStep, FRAME_LEN};
use rpc_client::{Envelope, Payload};

#[test]
fn test_frame_exact_bytes() {
    let env = Envelope {
        id: 1,
        responding_to: None,
        payload: Payload::AuthResponse {
            credentials_valid: true,
        },
    };
    let mut wire: Vec<u8> = Vec::new();
    encode_envelope(&env, &mut wire);
    assert_eq!(
        wire,
        vec![1, 0, 0, 0, 0, 0, 0, 0, 0, 1, 1, 0, 0, 0, 0, 0, 0, 0]
    );
}

#[test]
fn test_frame_exact_bytes_response() {
    let env = Envelope {
        id: 0x01020304,
        responding_to: Some(0x0a0b0c0d),
        payload: Payload::Auth {
            user_id: 42,
            access_token: 258,
        },
    };
    let mut wire: Vec<u8> = Vec::new();
    encode_envelope(&env, &mut wire);
    assert_eq!(
        wire,
        vec![4, 3, 2, 1, 1, 0x0d, 0x0c, 0x0b, 0x0a, 0, 42, 0, 0, 0, 2, 1, 0, 0]
    );
}

#[test]
fn test_wire_round_trip_many() {
    // Several envelopes written whole-frame at a time onto one wire decode
    // back into exactly those envelopes, in order.
    let sent = vec![
        Envelope {
            id: 0,
            responding_to: None,
            payload: Payload::Auth {
                user_id: 42,
                access_token: 7,
            },
        },
        Envelope {
            id: 1,
            responding_to: Some(12),
            payload: Payload::OpenWorktreeResponse { ok: false },
        },
        Envelope {
            id: 2,
            responding_to: None,
            payload: Payload::UpdateWorktree {
                worktree_id: 4294967295,
                version: 65536,
            },
        },
    ];
    let mut wire: Vec<u8> = Vec::new();
    for env in &sent {
        encode_envelope(env, &mut wire);
    }
    assert_eq!(wire.len(), sent.len() * FRAME_LEN);

    let mut received: Vec<Envelope> = Vec::new();
    let mut pos = 0;
    while let Some((env, next)) = decode_envelope(&wire, pos) {
        received.push(env);
        pos = next;
    }
    assert_eq!(pos, wire.len());
    assert_eq!(received, sent);
}

#[test]
fn test_decode_rejects_partial_frame() {
    let env = Envelope {
        id: 3,
        responding_to: None,
        payload: Payload::OpenWorktree { worktree_id: 1 },
    };
    let mut wire: Vec<u8> = Vec::new();
    encode_envelope(&env, &mut wire);
    wire.pop();
    assert!(decode_envelope(&wire, 0).is_none());
}

#[test]
fn test_decode_rejects_bad_tag() {
    let mut wire = vec![0u8; FRAME_LEN];
    wire[9] = 200;
    assert!(decode_envelope(&wire, 0).is_none());
}

#[test]
fn test_scan_resynchronizes_after_malformed_frame() {
    let good = Envelope {
        id: 8,
        responding_to: None,
        payload: Payload::OpenWorktree { worktree_id: 2 },
    };
    // One garbage frame (bad tag), then a well-formed one.
    let mut wire = vec![0u8; FRAME_LEN];
    wire[9] = 200;
    encode_envelope(&good, &mut wire);

    match scan_frame(&wire, 0) {
        ScanStep::Malformed(next) => {
            assert_eq!(next, FRAME_LEN);
            match scan_frame(&wire, next) {
                ScanStep::Frame(env, after) => {
                    assert_eq!(env, good);
                    assert_eq!(after, 2 * FRAME_LEN);
                    assert!(matches!(scan_frame(&wire, after), ScanStep::Incomplete));
                }
                other => panic!("expected a frame, got {:?}", other),
            }
        }
        other => panic!("expected a malformed frame, got {:?}", other),
    }
}
