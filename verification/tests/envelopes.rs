use coinjoin_pool::results::{
    coinjoin_outcome, list_coins_outcome, list_pools_outcome, CoinjoinResult, ListCoinsResult,
    ListPoolsResult,
};
use coinjoin_pool::types::{
    Address, Coin, Fee, Mnemonic, OutPoint, Pool, PoolConfig, PoolPayload, ProtocolError,
    Network,
};

fn coin(txid: &[u8], vout: u32, amount: u64) -> Coin {
    Coin { outpoint: OutPoint { txid: txid.to_vec(), vout }, amount }
}

#[test]
fn coinjoin_result_distinguishes_empty_ok_and_err() {
    let r = CoinjoinResult::new();
    assert!(!r.is_ok());
    assert!(!r.is_err());
    assert!(r.result().is_none());
    assert!(r.error().is_none());

    let mut ok = CoinjoinResult::new();
    ok.set("txid-0123".to_string());
    assert!(ok.is_ok());
    assert!(!ok.is_err());
    assert_eq!(ok.result(), Some("txid-0123".to_string()));

    let mut err = CoinjoinResult::new();
    err.set_error("timeout".to_string());
    assert!(!err.is_ok());
    assert!(err.is_err());
    assert_eq!(err.error(), Some("timeout".to_string()));
}

#[test]
fn list_coins_result_round_trips_values() {
    let mut r = ListCoinsResult::new();
    assert!(!r.is_ok() && !r.is_err());
    r.set(vec![coin(&[1, 2], 0, 5_000), coin(&[3], 1, 7_000)]);
    assert!(r.is_ok());
    let coins = r.result().unwrap();
    assert_eq!(coins.len(), 2);
    assert_eq!(coins[0].amount_sat(), 5_000);
    assert_eq!(coins[1].amount_sat(), 7_000);
}

#[test]
fn list_pools_result_round_trips_values() {
    let mut r = ListPoolsResult::new();
    r.set(vec![Pool {
        id: vec![7],
        payload: Some(PoolPayload {
            denomination: 100_000,
            fee: Fee::Fixed(1_000),
            peers: 3,
            relays: vec!["wss://relay.example".to_string()],
            created_at: 1,
        }),
    }]);
    assert!(r.is_ok());
    let pools = r.result().unwrap();
    assert_eq!(pools.len(), 1);
    assert_eq!(pools[0].denomination_sat(), Some(100_000));
    assert_eq!(pools[0].peers(), Some(3));
    assert_eq!(pools[0].fee(), Some(1_000));
    assert_eq!(pools[0].relay(), Some("wss://relay.example".to_string()));
}

#[test]
fn outcome_flatteners_populate_exactly_one_side() {
    let ok = coinjoin_outcome(Ok("txid-9".to_string()));
    assert!(ok.is_ok() && !ok.is_err());
    let err = coinjoin_outcome(Err("transport error".to_string()));
    assert!(err.is_err() && err.error() == Some("transport error".to_string()));

    let coins_ok = list_coins_outcome(Ok(vec![coin(&[1], 0, 10)]));
    assert!(coins_ok.is_ok());
    // An explicit zero-results success is distinct from an error.
    let empty_ok = list_coins_outcome(Ok(vec![]));
    assert!(empty_ok.is_ok() && !empty_ok.is_err());
    assert_eq!(empty_ok.result().unwrap().len(), 0);
    let coins_err = list_coins_outcome(Err("unreachable".to_string()));
    assert!(coins_err.is_err());

    let pools_ok = list_pools_outcome(Ok(vec![]));
    assert!(pools_ok.is_ok());
    let pools_err = list_pools_outcome(Err("unreachable".to_string()));
    assert!(pools_err.is_err());
}

#[test]
fn bare_pool_has_no_payload_fields() {
    let p = Pool { id: vec![1], payload: None };
    assert_eq!(p.denomination_sat(), None);
    assert_eq!(p.peers(), None);
    assert_eq!(p.fee(), None);
    assert_eq!(p.relay(), None);
}

#[test]
fn outpoint_formats_as_hex_txid_colon_decimal_index() {
    let c = coin(&[0xab, 0x01, 0x5f], 7, 1);
    assert_eq!(c.outpoint(), "ab015f:7".to_string());
    let c2 = coin(&[0x00], 41_005, 1);
    assert_eq!(c2.outpoint(), "00:41005".to_string());
    let c3 = coin(&[0xff], 0, 1);
    assert_eq!(c3.outpoint(), "ff:0".to_string());
}

#[test]
fn address_from_string_requires_well_formed_text() {
    assert!(Address::from_string("".to_string()).is_none());
    let a = Address::from_string("bcrt1qexample".to_string()).unwrap();
    assert_eq!(a.bytes, b"bcrt1qexample".to_vec());
    let too_long = "x".repeat(91);
    assert!(Address::from_string(too_long).is_none());
}

#[test]
fn mnemonic_from_string_rejects_empty_text() {
    assert!(Mnemonic::from_string("".to_string()).is_none());
    let m = Mnemonic::from_string("abandon ability able".to_string()).unwrap();
    assert_eq!(m.phrase, "abandon ability able".to_string());
}

#[test]
fn pool_config_invariant() {
    let good = PoolConfig {
        denomination: 1,
        fee: 0,
        max_duration: 10,
        peers: 2,
        network: Network::Signet,
    };
    assert!(good.is_valid());
    let bad = PoolConfig { denomination: 0, ..good };
    assert!(!bad.is_valid());
}

#[test]
fn protocol_error_messages() {
    assert_eq!(ProtocolError::Timeout.message(), "timeout");
    assert_eq!(ProtocolError::BalanceError.message(), "balance error");
    assert_eq!(ProtocolError::MissingSignature.message(), "missing signature");
    assert_eq!(ProtocolError::SignatureMismatch.message(), "signature mismatch");
    assert_eq!(ProtocolError::IncompatibleConfig.message(), "incompatible config");
    assert_eq!(ProtocolError::TransportError.message(), "transport error");
    assert_eq!(ProtocolError::InvalidCommitment.message(), "invalid commitment");
    assert_eq!(ProtocolError::PeerMismatch.message(), "peer mismatch");
    assert_eq!(ProtocolError::InvalidConfig.message(), "invalid config");
}
