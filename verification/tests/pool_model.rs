use ldap_client::pool::{PoolModel, CheckoutStep, pick_endpoint};
use ldap_client::discovery::discover_uris;

#[test]
fn fresh_checkout_creates() {
    let mut p = PoolModel::new(5);
    match p.checkout_step() {
        CheckoutStep::Create(id) => {
            assert_eq!(id, 0);
            let granted = p.create_result(true);
            assert_eq!(granted, Some(0));
            assert_eq!(p.leased, vec![0]);
        }
        other => panic!("unexpected step: {:?}", other),
    }
}

#[test]
fn failed_creation_frees_slot() {
    let mut p = PoolModel::new(1);
    assert!(matches!(p.checkout_step(), CheckoutStep::Create(0)));
    assert_eq!(p.create_result(false), None);
    assert!(matches!(p.checkout_step(), CheckoutStep::Create(1)));
    assert_eq!(p.create_result(true), Some(1));
}

#[test]
fn returned_connection_is_health_checked_before_reuse() {
    let mut p = PoolModel::new(5);
    assert!(matches!(p.checkout_step(), CheckoutStep::Create(0)));
    assert_eq!(p.create_result(true), Some(0));
    p.give_back(0);
    assert!(matches!(p.checkout_step(), CheckoutStep::Recycle(0)));
    assert_eq!(p.recycle_result(true), Some(0));
    assert_eq!(p.leased, vec![0]);
}

#[test]
fn unhealthy_connection_never_comes_back() {
    let mut p = PoolModel::new(5);
    assert!(matches!(p.checkout_step(), CheckoutStep::Create(0)));
    assert_eq!(p.create_result(true), Some(0));
    p.give_back(0);
    assert!(matches!(p.checkout_step(), CheckoutStep::Recycle(0)));
    assert_eq!(p.recycle_result(false), None);
    assert!(p.idle.is_empty());
    assert!(p.leased.is_empty());
    match p.checkout_step() {
        CheckoutStep::Create(id) => {
            assert_ne!(id, 0);
            assert_eq!(p.create_result(true), Some(id));
            assert!(!p.leased.contains(&0));
        }
        other => panic!("unexpected step: {:?}", other),
    }
}

#[test]
fn fatal_error_discards_lease() {
    let mut p = PoolModel::new(2);
    assert!(matches!(p.checkout_step(), CheckoutStep::Create(0)));
    assert_eq!(p.create_result(true), Some(0));
    p.discard(0);
    assert!(p.leased.is_empty());
    assert!(p.idle.is_empty());
}

#[test]
fn seven_requesters_never_exceed_five_connections() {
    let hosts = vec!["a".to_string(), "b".to_string()];
    let endpoints = discover_uris(&hosts).unwrap();
    assert_eq!(endpoints, vec!["ldaps://a".to_string(), "ldaps://b".to_string()]);
    let picked = pick_endpoint(&endpoints);
    assert!(endpoints.contains(picked));

    let mut p = PoolModel::new(5);
    let mut granted: Vec<u64> = Vec::new();
    let mut waiting: usize = 0;
    for _ in 0..7 {
        match p.checkout_step() {
            CheckoutStep::Create(_) => {
                let id = p.create_result(true).unwrap();
                granted.push(id);
            }
            CheckoutStep::Recycle(_) => {
                let id = p.recycle_result(true).unwrap();
                granted.push(id);
            }
            CheckoutStep::Wait => {
                waiting += 1;
            }
        }
        assert!(p.leased.len() <= 5);
    }
    assert_eq!(granted.len(), 5);
    assert_eq!(waiting, 2);

    // Two leases come back; the two waiters then complete via recycling.
    let a = granted[0];
    let b = granted[1];
    p.give_back(a);
    p.give_back(b);
    for _ in 0..2 {
        match p.checkout_step() {
            CheckoutStep::Recycle(_) => {
                let id = p.recycle_result(true).unwrap();
                granted.push(id);
            }
            other => panic!("unexpected step: {:?}", other),
        }
        assert!(p.leased.len() <= 5);
    }
    assert_eq!(granted.len(), 7);
    assert_eq!(p.leased.len(), 5);
}
