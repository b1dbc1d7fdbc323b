use talos_discovery::cluster::TalosCluster;
use talos_discovery::protocol::{AffiliateUpdateRequest, Ttl};
use talos_discovery::time::Timestamp;

fn at(secs: u64) -> Timestamp {
    Timestamp::new(secs, 0).unwrap()
}

fn req(affiliate: &str, data: Option<Vec<u8>>, endpoints: Vec<Vec<u8>>, ttl: i64) -> AffiliateUpdateRequest {
    AffiliateUpdateRequest {
        cluster_id: "c".to_string(),
        affiliate_id: affiliate.to_string(),
        affiliate_data: data,
        affiliate_endpoints: endpoints,
        ttl: Some(Ttl { seconds: ttl, nanos: 0 }),
    }
}

#[test]
fn new_cluster_is_empty() {
    let cluster = TalosCluster::new("c".to_string());
    assert!(cluster.has_affiliates());
    assert_eq!(cluster.id(), "c");
    assert!(cluster.get_affiliates().is_empty());
}

#[test]
fn add_get_delete() {
    let mut cluster = TalosCluster::new("c".to_string());
    assert!(cluster.add_affiliate_at(&req("a", Some(vec![1]), vec![], 10), at(0)).is_ok());
    assert!(!cluster.has_affiliates());
    assert_eq!(cluster.get_affiliate(&"a".to_string()).unwrap().data, vec![1]);
    assert!(cluster.get_affiliate(&"b".to_string()).is_none());
    let removed = cluster.delete_affiliate(&"a".to_string()).unwrap();
    assert_eq!(removed.id, "a");
    assert_eq!(removed.expiration, at(10));
    assert!(cluster.delete_affiliate(&"a".to_string()).is_none());
    assert!(cluster.has_affiliates());
}

#[test]
fn add_without_ttl_is_rejected() {
    let mut cluster = TalosCluster::new("c".to_string());
    let mut r = req("a", None, vec![], 10);
    r.ttl = None;
    assert!(cluster.add_affiliate_at(&r, at(0)).is_err());
    assert!(cluster.has_affiliates());
}

#[test]
fn add_beyond_clock_range_is_rejected() {
    let mut cluster = TalosCluster::new("c".to_string());
    let now = Timestamp::new(u64::MAX - 5, 0).unwrap();
    assert!(cluster.add_affiliate_at(&req("a", None, vec![], 10), now).is_err());
    assert!(cluster.has_affiliates());
}

#[test]
fn subscribe_then_broadcast() {
    let mut cluster = TalosCluster::new("c".to_string());
    assert!(cluster.add_affiliate_at(&req("a", None, vec![], 10), at(0)).is_ok());
    let mut sub = cluster.subscribe();
    assert_eq!(sub.initial.affiliates.len(), 1);
    cluster.broadcast_affiliate_states();
    let event = sub.receiver.try_recv().unwrap();
    assert!(!event.deleted);
    assert_eq!(event.affiliates.len(), 1);
}

#[test]
fn cluster_gc_removes_expired_only() {
    let mut cluster = TalosCluster::new("c".to_string());
    assert!(cluster.add_affiliate_at(&req("short", None, vec![], 5), at(0)).is_ok());
    assert!(cluster.add_affiliate_at(&req("long", None, vec![], 50), at(0)).is_ok());
    let mut sub = cluster.subscribe();
    cluster.run_gc_at(at(5));
    assert!(cluster.get_affiliate(&"short".to_string()).is_none());
    assert!(cluster.get_affiliate(&"long".to_string()).is_some());
    let event = sub.receiver.try_recv().unwrap();
    assert!(event.deleted);
    assert_eq!(event.affiliates.len(), 1);
    assert_eq!(event.affiliates[0].id, "short");
}

#[test]
fn describe_writes_ids_expiration_and_hex_previews() {
    let mut cluster = TalosCluster::new("c1".to_string());
    let r = req("a1", Some(vec![0xde, 0xad, 0xbe, 0xef, 0x01]), vec![vec![0x0a], vec![]], 60);
    assert!(cluster.add_affiliate_at(&r, at(1431647940)).is_ok());
    assert_eq!(
        cluster.describe(),
        "{ Cluster: c1, Affiliate id: a1, Expiration: 2015-05-15 00:00:00 UTC, Encrypted data: deadbeef.., Encrypted Endpoint: 0a.., Encrypted Endpoint: ..}"
    );
}

#[test]
fn describe_empty_cluster() {
    let cluster = TalosCluster::new("e".to_string());
    assert_eq!(cluster.describe(), "{ Cluster: e}");
}

#[test]
fn convert_watch_response_lists_given_records() {
    let mut cluster = TalosCluster::new("c".to_string());
    assert!(cluster.add_affiliate_at(&req("a", Some(vec![4]), vec![vec![5]], 10), at(0)).is_ok());
    let resp = cluster.convert_watch_response(cluster.get_affiliates());
    assert!(!resp.deleted);
    assert_eq!(resp.affiliates.len(), 1);
    assert_eq!(resp.affiliates[0].data, vec![4]);
    assert_eq!(resp.affiliates[0].endpoints, vec![vec![5]]);
}
