use coinjoin_pool::builder::InputSignature;
use coinjoin_pool::session::{
    CommitOutcome, RejectReason, Session, SessionState, SigOutcome,
};
use coinjoin_pool::types::{
    Address, Coin, Commitment, Fee, Mnemonic, Network, OutPoint, PeerConfig, Pool, PoolConfig,
    PoolPayload, ProtocolError,
};

fn config(denomination: u64, fee: u32, peers: usize) -> PoolConfig {
    PoolConfig { denomination, fee, max_duration: 1_000, peers, network: Network::Regtest }
}

fn commitment(txid: &[u8], vout: u32, amount: u64, key: &[u8], addr: &[u8]) -> Commitment {
    Commitment {
        input: Coin { outpoint: OutPoint { txid: txid.to_vec(), vout }, amount },
        key: key.to_vec(),
        output: Address { bytes: addr.to_vec() },
    }
}

fn peer(amount: u64, addr: &[u8]) -> PeerConfig {
    PeerConfig {
        mnemonics: Mnemonic { phrase: "abandon ability able".to_string() },
        electrum_url: "ssl://electrum.example".to_string(),
        electrum_port: 50002,
        input: Coin { outpoint: OutPoint { txid: vec![7; 32], vout: 0 }, amount },
        output: Address { bytes: addr.to_vec() },
        relay: "wss://relay.example".to_string(),
    }
}

fn advertised_pool(denomination: u64, fee: u32, peers: usize) -> Pool {
    Pool {
        id: vec![0xab; 8],
        payload: Some(PoolPayload {
            denomination,
            fee: Fee::Fixed(fee),
            peers,
            relays: vec!["wss://relay.example".to_string()],
            created_at: 5,
        }),
    }
}

#[test]
fn new_session_validates_config() {
    assert!(Session::new(config(100_000, 1_000, 2), 0).is_ok());
    let bad_denom = Session::new(config(0, 1_000, 2), 0);
    assert!(matches!(bad_denom, Err(ProtocolError::InvalidConfig)));
    let bad_peers = Session::new(config(100_000, 1_000, 1), 0);
    assert!(matches!(bad_peers, Err(ProtocolError::InvalidConfig)));
}

#[test]
fn full_session_reaches_finalized_and_balances() {
    // denomination 100,000, fee 1,000, two peers: each owes a 500 sat
    // share, and inputs of exactly 100,500 balance the transaction.
    let mut s = Session::new(config(100_000, 1_000, 2), 0).unwrap();
    assert_eq!(s.state, SessionState::Created);
    let payload = s.advertise("wss://relay.example".to_string(), 0);
    assert_eq!(payload.denomination, 100_000);
    assert_eq!(payload.fee, Fee::Fixed(1_000));
    assert_eq!(s.state, SessionState::Open);

    let r1 = s.on_commitment(commitment(&[2; 32], 0, 100_500, b"key-a", b"addr-a"));
    assert_eq!(r1, CommitOutcome::Accepted);
    let r2 = s.on_commitment(commitment(&[1; 32], 3, 100_500, b"key-b", b"addr-b"));
    assert_eq!(r2, CommitOutcome::Filled);
    assert_eq!(s.state, SessionState::Filling);

    s.build().unwrap();
    assert_eq!(s.state, SessionState::AwaitingSignatures);
    let template = s.template.as_ref().unwrap();
    let digest = template.encode();
    let sig0 = InputSignature {
        input_index: 0,
        key: template.inputs[0].key.clone(),
        digest: digest.clone(),
        material: vec![1],
    };
    let sig1 = InputSignature {
        input_index: 1,
        key: template.inputs[1].key.clone(),
        digest,
        material: vec![2],
    };
    assert_eq!(s.on_signature(sig1), SigOutcome::Accepted);
    assert_eq!(s.on_signature(sig0), SigOutcome::Complete);
    assert_eq!(s.state, SessionState::Finalized);

    let st = s.finished.as_ref().unwrap();
    let in_sum: u64 = st.template.inputs.iter().map(|i| i.amount).sum();
    let out_sum: u64 = st.template.outputs.iter().map(|o| o.value).sum();
    assert_eq!(in_sum, out_sum + st.template.fee as u64);
    // Inputs sorted by (txid, vout): the second commitment's outpoint
    // comes first.
    assert_eq!(st.template.inputs[0].txid, vec![1; 32]);
}

#[test]
fn join_fails_fast_on_differing_denomination() {
    // The pool's denomination differs from what the peer offers: the join
    // fails before any network activity, with IncompatibleConfig.
    let pool = advertised_pool(200_000, 1_000, 3);
    let offer = config(100_000, 1_000, 3);
    let r = Session::join(&pool, peer(101_000, b"addr-x"), offer, b"key-x".to_vec(), 0);
    assert!(matches!(r, Err(ProtocolError::IncompatibleConfig)));
}

#[test]
fn join_fails_on_missing_payload_and_insufficient_coin() {
    let bare = Pool { id: vec![1], payload: None };
    let offer = config(100_000, 1_000, 3);
    let r = Session::join(&bare, peer(200_000, b"addr-x"), offer, b"k".to_vec(), 0);
    assert!(matches!(r, Err(ProtocolError::IncompatibleConfig)));

    // 100,333 is one short of denomination plus the 334 sat fee share.
    let pool = advertised_pool(100_000, 1_000, 3);
    let r2 = Session::join(&pool, peer(100_333, b"addr-x"), offer, b"k".to_vec(), 0);
    assert!(matches!(r2, Err(ProtocolError::IncompatibleConfig)));
}

#[test]
fn join_succeeds_on_matching_pool() {
    let pool = advertised_pool(100_000, 1_000, 3);
    let offer = config(100_000, 1_000, 3);
    let (s, c) = Session::join(&pool, peer(100_334, b"addr-x"), offer, b"key-x".to_vec(), 10)
        .unwrap();
    assert_eq!(s.state, SessionState::Open);
    assert_eq!(s.deadline, 1_010);
    assert_eq!(c.input.amount, 100_334);
    assert_eq!(c.key, b"key-x".to_vec());
    assert_eq!(c.output.bytes, b"addr-x".to_vec());
}

#[test]
fn underfilled_session_times_out_to_aborted() {
    // One valid commitment of two required; the deadline elapses: the
    // session aborts with Timeout, it never finalizes.
    let mut s = Session::new(config(100_000, 1_000, 2), 0).unwrap();
    s.advertise("wss://relay.example".to_string(), 0);
    let r = s.on_commitment(commitment(&[2; 32], 0, 100_500, b"key-a", b"addr-a"));
    assert_eq!(r, CommitOutcome::Accepted);
    s.tick(999);
    assert_eq!(s.state, SessionState::Open);
    s.tick(1_000);
    assert_eq!(s.state, SessionState::Aborted(ProtocolError::Timeout));
    // Terminal: a later event changes nothing.
    let r2 = s.on_commitment(commitment(&[3; 32], 0, 100_500, b"key-b", b"addr-b"));
    assert_eq!(r2, CommitOutcome::Rejected(RejectReason::SessionNotOpen));
    assert_eq!(s.state, SessionState::Aborted(ProtocolError::Timeout));
}

#[test]
fn double_commit_is_rejected_and_first_stays_authoritative() {
    let mut s = Session::new(config(100_000, 1_000, 3), 0).unwrap();
    s.advertise("wss://relay.example".to_string(), 0);
    let first = s.on_commitment(commitment(&[5; 32], 1, 100_500, b"key-a", b"addr-a"));
    assert_eq!(first, CommitOutcome::Accepted);
    // Same outpoint, different amount and address: rejected as a double
    // commit.
    let second = s.on_commitment(commitment(&[5; 32], 1, 999_999, b"key-b", b"addr-b"));
    assert_eq!(second, CommitOutcome::Rejected(RejectReason::DoubleCommit));
    assert_eq!(s.commitments.len(), 1);
    assert_eq!(s.commitments[0].input.amount, 100_500);
    assert_eq!(s.commitments[0].output.bytes, b"addr-a".to_vec());
    assert_eq!(s.state, SessionState::Open);
}

#[test]
fn commitment_below_denomination_plus_share_is_rejected() {
    let mut s = Session::new(config(100_000, 1_000, 3), 0).unwrap();
    s.advertise("wss://relay.example".to_string(), 0);
    // The fee share of 1,000 over 3 peers is 334, rounded up.
    let r = s.on_commitment(commitment(&[5; 32], 0, 100_333, b"key-a", b"addr-a"));
    assert_eq!(r, CommitOutcome::Rejected(RejectReason::InsufficientAmount));
    let ok = s.on_commitment(commitment(&[5; 32], 0, 100_334, b"key-a", b"addr-a"));
    assert_eq!(ok, CommitOutcome::Accepted);
}

#[test]
fn malformed_address_is_rejected() {
    let mut s = Session::new(config(100_000, 1_000, 3), 0).unwrap();
    s.advertise("wss://relay.example".to_string(), 0);
    let r = s.on_commitment(commitment(&[5; 32], 0, 100_500, b"key-a", b""));
    assert_eq!(r, CommitOutcome::Rejected(RejectReason::MalformedAddress));
}

#[test]
fn excess_input_value_aborts_with_balance_error() {
    // denomination 100,000 sat, fee 1,000 sat, three peers: commitments of
    // 101,000 / 101,500 / 102,000 sat all clear the 100,334 sat floor and
    // commit successfully, but 304,500 in against 300,000 out plus 1,000
    // fee leaves 2,500 of unaccounted excess: the balance check rejects
    // the template, the session aborts with BalanceError.
    let mut s = Session::new(config(100_000, 1_000, 3), 0).unwrap();
    s.advertise("wss://relay.example".to_string(), 0);
    assert_eq!(
        s.on_commitment(commitment(&[1; 32], 0, 101_000, b"key-a", b"addr-a")),
        CommitOutcome::Accepted
    );
    assert_eq!(
        s.on_commitment(commitment(&[2; 32], 0, 101_500, b"key-b", b"addr-b")),
        CommitOutcome::Accepted
    );
    assert_eq!(
        s.on_commitment(commitment(&[3; 32], 0, 102_000, b"key-c", b"addr-c")),
        CommitOutcome::Filled
    );
    let r = s.build();
    assert!(matches!(r, Err(ProtocolError::BalanceError)));
    assert_eq!(s.state, SessionState::Aborted(ProtocolError::BalanceError));
}

#[test]
fn signature_for_wrong_key_is_rejected() {
    let mut s = Session::new(config(100_000, 1_000, 2), 0).unwrap();
    s.advertise("wss://relay.example".to_string(), 0);
    s.on_commitment(commitment(&[2; 32], 0, 100_500, b"key-a", b"addr-a"));
    s.on_commitment(commitment(&[1; 32], 3, 100_500, b"key-b", b"addr-b"));
    s.build().unwrap();
    let digest = s.template.as_ref().unwrap().encode();
    let wrong_key = InputSignature {
        input_index: 0,
        key: b"not-the-committing-key".to_vec(),
        digest,
        material: vec![],
    };
    assert_eq!(s.on_signature(wrong_key), SigOutcome::Rejected);
    assert_eq!(s.state, SessionState::AwaitingSignatures);
}

#[test]
fn abort_releases_session_with_reason() {
    let mut s = Session::new(config(100_000, 1_000, 2), 0).unwrap();
    s.abort(ProtocolError::TransportError);
    assert_eq!(s.state, SessionState::Aborted(ProtocolError::TransportError));
}
