use coinjoin_pool::directory::Directory;
use coinjoin_pool::types::{Fee, PoolPayload};

fn payload(denomination: u64, fee: Fee, peers: usize) -> PoolPayload {
    PoolPayload {
        denomination,
        fee,
        peers,
        relays: vec!["wss://relay.example".to_string()],
        created_at: 42,
    }
}

#[test]
fn valid_advertisement_is_recorded() {
    let mut d = Directory::new();
    assert!(d.on_advertisement(vec![1, 2, 3], Some(payload(100_000, Fee::Fixed(1_000), 3))));
    assert_eq!(d.len(), 1);
    assert_eq!(d.pools()[0].id, vec![1, 2, 3]);
    assert_eq!(d.pools()[0].payload.as_ref().unwrap().denomination, 100_000);
}

#[test]
fn malformed_advertisements_are_skipped_not_fatal() {
    let mut d = Directory::new();
    assert!(!d.on_advertisement(vec![1], None));
    assert!(!d.on_advertisement(vec![2], Some(payload(0, Fee::Fixed(1_000), 3))));
    assert!(!d.on_advertisement(vec![3], Some(payload(100_000, Fee::Fixed(1_000), 1))));
    assert!(!d.on_advertisement(vec![4], Some(payload(100_000, Fee::PerVByte(2), 3))));
    assert_eq!(d.len(), 0);
    // The directory still accepts a valid one afterwards.
    assert!(d.on_advertisement(vec![5], Some(payload(100_000, Fee::Fixed(1_000), 3))));
    assert_eq!(d.len(), 1);
}

#[test]
fn pools_are_kept_in_arrival_order() {
    let mut d = Directory::new();
    assert!(d.on_advertisement(vec![9], Some(payload(100_000, Fee::Fixed(1_000), 3))));
    assert!(d.on_advertisement(vec![1], Some(payload(200_000, Fee::Fixed(2_000), 2))));
    assert!(d.on_advertisement(vec![5], Some(payload(300_000, Fee::Fixed(3_000), 4))));
    let ids: Vec<Vec<u8>> = d.pools().iter().map(|p| p.id.clone()).collect();
    assert_eq!(ids, vec![vec![9], vec![1], vec![5]]);
}

#[test]
fn duplicate_identifier_collapses_last_write_wins() {
    let mut d = Directory::new();
    assert!(d.on_advertisement(vec![9], Some(payload(100_000, Fee::Fixed(1_000), 3))));
    assert!(d.on_advertisement(vec![1], Some(payload(200_000, Fee::Fixed(2_000), 2))));
    // A second advertisement of pool 9: its position is kept, its payload
    // replaced.
    assert!(d.on_advertisement(vec![9], Some(payload(150_000, Fee::Fixed(500), 5))));
    assert_eq!(d.len(), 2);
    assert_eq!(d.pools()[0].id, vec![9]);
    assert_eq!(d.pools()[0].payload.as_ref().unwrap().denomination, 150_000);
    assert_eq!(d.pools()[0].payload.as_ref().unwrap().peers, 5);
    assert_eq!(d.pools()[1].id, vec![1]);
    assert_eq!(d.pools()[1].payload.as_ref().unwrap().denomination, 200_000);
}

#[test]
fn invalid_update_does_not_replace_a_recorded_payload() {
    let mut d = Directory::new();
    assert!(d.on_advertisement(vec![9], Some(payload(100_000, Fee::Fixed(1_000), 3))));
    assert!(!d.on_advertisement(vec![9], Some(payload(0, Fee::Fixed(1_000), 3))));
    assert_eq!(d.pools()[0].payload.as_ref().unwrap().denomination, 100_000);
}
