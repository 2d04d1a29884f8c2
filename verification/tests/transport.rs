use std::sync::{Arc, Mutex};

use melin::transport::auth::{
    answer_challenge, challenge_nonce, generate_challenge_nonce, key_verdict, load_signing_key,
    primary_verdict, signature_verdict, verify_challenge_response, AuthorizedKeys,
    ChallengeResponse, Permission,
};
use melin::transport::cursors::{PipelineCursors, RingPos, WireSeq, NO_REPLICA};
use melin::transport::handshake::{
    chain_at_sequence, find_chain_source, validate_replica_handshake, ChainAtSequence,
    ChainSource, ChainValueAt, DivergenceKind, Handshake, HandshakeValidation, SegmentHeader,
};

fn cursors() -> PipelineCursors {
    PipelineCursors::new(0, 0, 0, NO_REPLICA)
}

#[test]
fn durable_wire_seq_round_trips() {
    let mut c = cursors();
    assert_eq!(c.load_durable_wire_seq(), WireSeq::new(0));
    c.store_durable_wire_seq(WireSeq::new(42));
    assert_eq!(c.load_durable_wire_seq(), WireSeq::new(42));
    assert_eq!(c.load_durable_wire_seq().get(), 42);
}

#[test]
fn ring_cursors_read_through_the_shared_arc() {
    let c = Arc::new(Mutex::new(cursors()));
    let stage = Arc::clone(&c);
    stage.lock().unwrap().store_journal_ring(RingPos::new(7));
    stage.lock().unwrap().store_matching_ring(RingPos::new(3));
    assert_eq!(c.lock().unwrap().load_journal_ring(), RingPos::new(7));
    assert_eq!(c.lock().unwrap().load_matching_ring(), RingPos::new(3));
}

#[test]
fn replica_acked_sentinel_maps_to_none() {
    let mut c = cursors();
    assert_eq!(c.load_replica_acked(), None);
    c.store_replica_acked(WireSeq::new(100));
    assert_eq!(c.load_replica_acked(), Some(WireSeq::new(100)));
}

#[test]
fn lag_and_depth_saturate() {
    assert_eq!(WireSeq::new(100).saturating_sub(WireSeq::new(40)), 60);
    assert_eq!(WireSeq::new(40).saturating_sub(WireSeq::new(100)), 0);
    assert_eq!(RingPos::new(10).saturating_sub(RingPos::new(4)), 6);
}

/// Chain values after the entries 1 to 4.
fn chains() -> [[u8; 32]; 4] {
    [[0x11; 32], [0x22; 32], [0x33; 32], [0x44; 32]]
}

/// The headers of two segments, the newest first: the live one starts at 3,
/// its archive at 1.
fn headers() -> Vec<SegmentHeader> {
    vec![
        SegmentHeader {
            starting_sequence: 3,
            anchor_hash: chains()[1],
        },
        SegmentHeader {
            starting_sequence: 1,
            anchor_hash: [0; 32],
        },
    ]
}

/// What walking a segment up to a sequence finds.
fn walk(seq: u64) -> ChainValueAt {
    if (1..=4).contains(&seq) {
        ChainValueAt::Value(chains()[seq as usize - 1])
    } else {
        ChainValueAt::BeyondTip
    }
}

fn validate(headers: &[SegmentHeader], handshake: Handshake) -> HandshakeValidation {
    let seq = handshake.last_sequence;
    let source = find_chain_source(headers, seq);
    validate_replica_handshake(&handshake, chain_at_sequence(source, walk(seq)))
}

fn hs(last_sequence: u64, chain_hash: [u8; 32]) -> Handshake {
    Handshake {
        last_sequence,
        chain_hash,
        epoch: 0,
    }
}

#[test]
fn truthful_replica_validates_at_every_position() {
    for (i, chain) in chains().iter().enumerate() {
        let seq = i as u64 + 1;
        assert_eq!(
            validate(&headers(), hs(seq, *chain)),
            HandshakeValidation::Consistent,
            "seq {seq}"
        );
    }
}

#[test]
fn wrong_hash_is_chain_mismatch() {
    for seq in 1..=4u64 {
        assert_eq!(
            validate(&headers(), hs(seq, [0xEE; 32])),
            HandshakeValidation::Divergent(DivergenceKind::ChainMismatch),
            "seq {seq}"
        );
    }
}

#[test]
fn sequence_beyond_tip_is_divergent() {
    assert_eq!(
        validate(&headers(), hs(5, chains()[3])),
        HandshakeValidation::Divergent(DivergenceKind::AheadOfTip)
    );
}

#[test]
fn fresh_and_pruned_positions_validate_ok() {
    assert_eq!(
        validate(&headers(), hs(0, [0u8; 32])),
        HandshakeValidation::Consistent,
        "fresh replica"
    );

    // Only the live segment is left: sequence 1 predates history, and the
    // boundary is still in the live segment's header.
    let left = &headers()[..1];
    assert_eq!(
        validate(left, hs(1, chains()[0])),
        HandshakeValidation::Consistent,
        "pruned history cannot be checked"
    );
    assert_eq!(
        validate(left, hs(2, chains()[1])),
        HandshakeValidation::Consistent,
        "boundary of surviving lineage still checkable"
    );
    assert_eq!(
        validate(left, hs(2, [0xEE; 32])),
        HandshakeValidation::Divergent(DivergenceKind::ChainMismatch),
    );
}

#[test]
fn boundary_is_read_from_a_header() {
    assert!(matches!(
        find_chain_source(&headers(), 2),
        ChainSource::Anchor(h) if h == chains()[1]
    ));
    assert!(matches!(find_chain_source(&headers(), 1), ChainSource::Walk(1)));
    assert!(matches!(find_chain_source(&headers(), 4), ChainSource::Walk(0)));
    assert!(matches!(
        chain_at_sequence(ChainSource::NotFound, walk(1)),
        ChainAtSequence::PredatesHistory
    ));
}

fn keys_for(seed: &[u8; 32], permission: Permission) -> AuthorizedKeys {
    let mut keys = AuthorizedKeys::new();
    keys.authorize(answer_challenge(seed, &[0; 32]).pubkey, permission);
    keys
}

#[test]
fn verify_accepts_valid_replication_key() {
    let key = [0x11; 32];
    let keys = keys_for(&key, Permission::Replication);
    let nonce = [0x42; 32];
    assert!(verify_challenge_response(&nonce, Ok(answer_challenge(&key, &nonce)), &keys).is_ok());
}

#[test]
fn verify_rejects_unknown_key() {
    let signer = [0x22; 32];
    let keys = keys_for(&[0x33; 32], Permission::Replication);
    let nonce = [0x42; 32];
    let err =
        verify_challenge_response(&nonce, Ok(answer_challenge(&signer, &nonce)), &keys).unwrap_err();
    assert!(err.to_string().contains("unknown"));
}

#[test]
fn verify_rejects_non_replication_permission() {
    let key = [0x44; 32];
    let keys = keys_for(&key, Permission::Trader);
    let nonce = [0x42; 32];
    let err =
        verify_challenge_response(&nonce, Ok(answer_challenge(&key, &nonce)), &keys).unwrap_err();
    assert!(err.to_string().contains("Replication"));
}

#[test]
fn verify_rejects_signature_over_wrong_nonce() {
    let key = [0x55; 32];
    let keys = keys_for(&key, Permission::Replication);
    let signed = [0x01; 32];
    let challenge = [0x02; 32];
    let err = verify_challenge_response(&challenge, Ok(answer_challenge(&key, &signed)), &keys)
        .unwrap_err();
    assert!(err.to_string().contains("signature"));
}

/// The key and signature come from `ed25519-dalek` itself.
#[test]
fn answers_match_the_signing_key() {
    let seed = [0x66; 32];
    let nonce = [0x07; 32];
    let key = ed25519_dalek::SigningKey::from_bytes(&seed);
    let answer = answer_challenge(&seed, &nonce);
    assert_eq!(answer.pubkey, key.verifying_key().to_bytes());
    assert_eq!(
        answer.signature,
        ed25519_dalek::Signer::sign(&key, &nonce).to_bytes()
    );
}

#[test]
fn bad_answers_say_why() {
    let keys = keys_for(&[0x11; 32], Permission::Replication);
    let err = verify_challenge_response(&[0; 32], Err("short frame".to_string()), &keys);
    assert_eq!(err.unwrap_err(), "bad challenge response: short frame");

    // No point of the curve has this encoding.
    let mut bad = [0u8; 32];
    bad[0] = 2;
    let mut keys = AuthorizedKeys::new();
    keys.authorize(bad, Permission::Replication);
    let response = ChallengeResponse {
        signature: [0; 64],
        pubkey: bad,
    };
    let err = verify_challenge_response(&[0; 32], Ok(response), &keys).unwrap_err();
    assert!(err.starts_with("invalid public key: "), "{err}");

    assert_eq!(
        key_verdict(Err("x".to_string())).unwrap_err(),
        "invalid public key: x"
    );
    assert_eq!(
        signature_verdict(Err("x".to_string())).unwrap_err(),
        "signature verification failed: x"
    );
    assert_eq!(
        primary_verdict(false).unwrap_err(),
        "primary rejected replication key"
    );
    assert!(primary_verdict(true).is_ok());
}

#[test]
fn later_entry_decides_a_key() {
    let mut keys = AuthorizedKeys::new();
    assert_eq!(keys.lookup(&[1; 32]), None);
    keys.authorize([1; 32], Permission::Trader);
    keys.authorize([2; 32], Permission::Custodian);
    keys.authorize([1; 32], Permission::Operator);
    assert_eq!(keys.lookup(&[1; 32]), Some(Permission::Operator));
    assert_eq!(keys.lookup(&[2; 32]), Some(Permission::Custodian));
}

#[test]
fn nonces_are_drawn_anew() {
    let a = generate_challenge_nonce().unwrap();
    let b = generate_challenge_nonce().unwrap();
    assert_ne!(a, b);
    assert_ne!(a, [0; 32]);
    assert_eq!(
        challenge_nonce(Err("no entropy".to_string())).unwrap_err(),
        "getrandom failed: no entropy"
    );
}

#[test]
fn load_valid_key() {
    assert_eq!(load_signing_key(&[0xABu8; 32], "a").unwrap(), [0xAB; 32]);
}

#[test]
fn reject_wrong_length() {
    let err = load_signing_key(&[0u8; 16], "bad.key").unwrap_err();
    assert!(err.to_string().contains("32 bytes"));
    assert_eq!(err, "key file must be 32 bytes, got 16 (bad.key)");
}

#[test]
fn lags_of_two_hops_add_up() {
    let (tip, journal, replica) = (WireSeq::new(90), WireSeq::new(70), WireSeq::new(40));
    assert_eq!(
        tip.saturating_sub(journal) + journal.saturating_sub(replica),
        tip.saturating_sub(replica)
    );
}
