use talos_discovery::protocol::{
    AffiliateDeleteRequest, AffiliateUpdateRequest, Code, ListRequest, Ttl, WatchRequest,
    WatchResponse, MAX_PAYLOAD_LENGTH,
};
use talos_discovery::service::{hello, Registry};
use talos_discovery::time::Timestamp;

fn at(secs: u64) -> Timestamp {
    Timestamp::new(secs, 0).unwrap()
}

fn update(cluster: &str, affiliate: &str, data: Option<Vec<u8>>, endpoints: Vec<Vec<u8>>, ttl: Option<Ttl>) -> AffiliateUpdateRequest {
    AffiliateUpdateRequest {
        cluster_id: cluster.to_string(),
        affiliate_id: affiliate.to_string(),
        affiliate_data: data,
        affiliate_endpoints: endpoints,
        ttl,
    }
}

fn secs(seconds: i64) -> Option<Ttl> {
    Some(Ttl { seconds, nanos: 0 })
}

fn list(registry: &Registry, cluster: &str) -> Result<Vec<String>, Code> {
    match registry.list(ListRequest { cluster_id: cluster.to_string() }) {
        Ok(resp) => {
            let mut ids: Vec<String> = resp.affiliates.iter().map(|a| a.id.clone()).collect();
            ids.sort();
            Ok(ids)
        }
        Err(e) => Err(e.code),
    }
}

fn event_ids(event: &WatchResponse) -> Vec<String> {
    let mut ids: Vec<String> = event.affiliates.iter().map(|a| a.id.clone()).collect();
    ids.sort();
    ids
}

#[test]
fn basic_upsert_lists_the_record() {
    let mut registry = Registry::new();
    let req = update("x", "a1", Some(vec![0x01]), vec![vec![0xAA]], secs(60));
    assert!(registry.affiliate_update_at(req, at(1000)).is_ok());
    let resp = registry.list(ListRequest { cluster_id: "x".to_string() }).unwrap();
    assert_eq!(resp.affiliates.len(), 1);
    assert_eq!(resp.affiliates[0].id, "a1");
    assert_eq!(resp.affiliates[0].data, vec![0x01]);
    assert_eq!(resp.affiliates[0].endpoints, vec![vec![0xAA]]);
}

#[test]
fn ttl_expiry_sweeps_record_and_cluster() {
    let mut registry = Registry::new();
    let req = update("x", "a1", None, vec![], secs(2));
    assert!(registry.affiliate_update_at(req, at(1000)).is_ok());
    registry.run_gc_at(at(1001));
    assert_eq!(list(&registry, "x"), Ok(vec!["a1".to_string()]));
    for t in 1002..=1004 {
        registry.run_gc_at(at(t));
    }
    assert_eq!(list(&registry, "x"), Err(Code::NotFound));
}

#[test]
fn watch_initial_snapshot_then_live_event() {
    let mut registry = Registry::new();
    let mut sub = registry.watch(WatchRequest { cluster_id: "y".to_string() }).unwrap();
    assert!(!sub.initial.deleted);
    assert!(sub.initial.affiliates.is_empty());
    let req = update("y", "a1", None, vec![], secs(60));
    assert!(registry.affiliate_update_at(req, at(1000)).is_ok());
    let event = sub.receiver.try_recv().unwrap();
    assert!(!event.deleted);
    assert_eq!(event_ids(&event), vec!["a1".to_string()]);
    assert!(sub.receiver.try_recv().is_err());
}

#[test]
fn deletion_publishes_remaining_membership() {
    let mut registry = Registry::new();
    assert!(registry.affiliate_update_at(update("z", "a1", None, vec![], secs(60)), at(1000)).is_ok());
    assert!(registry.affiliate_update_at(update("z", "a2", None, vec![], secs(60)), at(1000)).is_ok());
    let mut sub = registry.watch(WatchRequest { cluster_id: "z".to_string() }).unwrap();
    assert_eq!(event_ids(&sub.initial), vec!["a1".to_string(), "a2".to_string()]);
    let del = AffiliateDeleteRequest { cluster_id: "z".to_string(), affiliate_id: "a1".to_string() };
    assert!(registry.affiliate_delete(del).is_ok());
    let event = sub.receiver.try_recv().unwrap();
    assert!(!event.deleted);
    assert_eq!(event_ids(&event), vec!["a2".to_string()]);
    assert_eq!(list(&registry, "z"), Ok(vec!["a2".to_string()]));
}

#[test]
fn gc_publishes_one_deletion_event_and_drops_cluster() {
    let mut registry = Registry::new();
    assert!(registry.affiliate_update_at(update("w", "a1", None, vec![], secs(1)), at(1000)).is_ok());
    assert!(registry.affiliate_update_at(update("w", "a2", None, vec![], secs(1)), at(1000)).is_ok());
    let mut sub = registry.watch(WatchRequest { cluster_id: "w".to_string() }).unwrap();
    registry.run_gc_at(at(1001));
    let event = sub.receiver.try_recv().unwrap();
    assert!(event.deleted);
    assert_eq!(event_ids(&event), vec!["a1".to_string(), "a2".to_string()]);
    assert!(registry.get_cluster(&"w".to_string()).is_none());
    assert_eq!(list(&registry, "w"), Err(Code::NotFound));
}

#[test]
fn oversized_payload_is_rejected_without_change() {
    let mut registry = Registry::new();
    let req = update("x", "a1", Some(vec![0u8; MAX_PAYLOAD_LENGTH + 1]), vec![], secs(60));
    let err = registry.affiliate_update_at(req, at(1000)).unwrap_err();
    assert_eq!(err.code, Code::InvalidArgument);
    assert_eq!(list(&registry, "x"), Err(Code::NotFound));
}

#[test]
fn payload_at_the_cap_is_accepted() {
    let mut registry = Registry::new();
    let req = update("x", "a1", Some(vec![7u8; MAX_PAYLOAD_LENGTH]), vec![vec![1u8; MAX_PAYLOAD_LENGTH]], secs(60));
    assert!(registry.affiliate_update_at(req, at(1000)).is_ok());
}

#[test]
fn oversized_endpoint_is_rejected() {
    let mut registry = Registry::new();
    let req = update("x", "a1", None, vec![vec![], vec![0u8; MAX_PAYLOAD_LENGTH + 1]], secs(60));
    assert_eq!(registry.affiliate_update_at(req, at(1000)).unwrap_err().code, Code::InvalidArgument);
    assert_eq!(list(&registry, "x"), Err(Code::NotFound));
}

#[test]
fn identifier_length_cap() {
    let mut registry = Registry::new();
    let long = "c".repeat(257);
    let exact = "c".repeat(256);
    let req = update(&long, "a1", None, vec![], secs(60));
    assert_eq!(registry.affiliate_update_at(req, at(1000)).unwrap_err().code, Code::InvalidArgument);
    let req = update("x", &long, None, vec![], secs(60));
    assert_eq!(registry.affiliate_update_at(req, at(1000)).unwrap_err().code, Code::InvalidArgument);
    let req = update(&exact, &exact, None, vec![], secs(60));
    assert!(registry.affiliate_update_at(req, at(1000)).is_ok());
    let err = registry.watch(WatchRequest { cluster_id: long.clone() }).err().unwrap();
    assert_eq!(err.code, Code::InvalidArgument);
    assert_eq!(list(&registry, &long), Err(Code::InvalidArgument));
}

#[test]
fn identifier_cap_counts_utf8_bytes() {
    let mut registry = Registry::new();
    // 129 two-byte characters: 258 bytes.
    let id = "é".repeat(129);
    let req = update(&id, "a1", None, vec![], secs(60));
    assert_eq!(registry.affiliate_update_at(req, at(1000)).unwrap_err().code, Code::InvalidArgument);
}

#[test]
fn ttl_limits() {
    let mut registry = Registry::new();
    for (ttl, ok) in [
        (None, false),
        (secs(0), false),
        (secs(-5), false),
        (secs(7201), false),
        (Some(Ttl { seconds: 10, nanos: -1 }), false),
        (secs(1), true),
        (secs(7200), true),
    ] {
        let req = update("t", "a1", None, vec![], ttl);
        assert_eq!(registry.affiliate_update_at(req, at(1000)).is_ok(), ok, "ttl {:?}", ttl);
    }
}

#[test]
fn expiration_is_receipt_time_plus_ttl() {
    let mut registry = Registry::new();
    let now = Timestamp::new(1000, 600_000_000).unwrap();
    let req = update("x", "a1", None, vec![], Some(Ttl { seconds: 60, nanos: 700_000_000 }));
    assert!(registry.affiliate_update_at(req, now).is_ok());
    let cluster = registry.get_cluster(&"x".to_string()).unwrap();
    let rec = cluster.get_affiliate(&"a1".to_string()).unwrap();
    assert_eq!(rec.expiration, Timestamp::new(1061, 300_000_000).unwrap());
}

#[test]
fn update_overwrites_same_affiliate() {
    let mut registry = Registry::new();
    assert!(registry.affiliate_update_at(update("x", "a1", Some(vec![1]), vec![], secs(60)), at(1000)).is_ok());
    assert!(registry.affiliate_update_at(update("x", "a1", Some(vec![2]), vec![], secs(30)), at(1010)).is_ok());
    let resp = registry.list(ListRequest { cluster_id: "x".to_string() }).unwrap();
    assert_eq!(resp.affiliates.len(), 1);
    assert_eq!(resp.affiliates[0].data, vec![2]);
    let rec_exp = registry.get_cluster(&"x".to_string()).unwrap().get_affiliate(&"a1".to_string()).unwrap().expiration;
    assert_eq!(rec_exp, at(1040));
}

#[test]
fn failed_update_leaves_existing_cluster_and_watchers_alone() {
    let mut registry = Registry::new();
    assert!(registry.affiliate_update_at(update("x", "a1", None, vec![], secs(60)), at(1000)).is_ok());
    let mut sub = registry.watch(WatchRequest { cluster_id: "x".to_string() }).unwrap();
    assert!(registry.affiliate_update_at(update("x", "a2", None, vec![], None), at(1000)).is_err());
    assert!(sub.receiver.try_recv().is_err());
    assert_eq!(list(&registry, "x"), Ok(vec!["a1".to_string()]));
}

#[test]
fn delete_in_unknown_cluster_is_not_found() {
    let mut registry = Registry::new();
    let del = AffiliateDeleteRequest { cluster_id: "nope".to_string(), affiliate_id: "a1".to_string() };
    assert_eq!(registry.affiliate_delete(del).unwrap_err().code, Code::NotFound);
    assert!(registry.get_cluster(&"nope".to_string()).is_none());
}

#[test]
fn delete_of_unknown_affiliate_succeeds_silently() {
    let mut registry = Registry::new();
    assert!(registry.affiliate_update_at(update("x", "a1", None, vec![], secs(60)), at(1000)).is_ok());
    let mut sub = registry.watch(WatchRequest { cluster_id: "x".to_string() }).unwrap();
    let del = AffiliateDeleteRequest { cluster_id: "x".to_string(), affiliate_id: "ghost".to_string() };
    assert!(registry.affiliate_delete(del).is_ok());
    assert!(sub.receiver.try_recv().is_err());
    assert_eq!(list(&registry, "x"), Ok(vec!["a1".to_string()]));
}

#[test]
fn delete_of_last_affiliate_keeps_cluster_until_gc() {
    let mut registry = Registry::new();
    assert!(registry.affiliate_update_at(update("x", "a1", None, vec![], secs(60)), at(1000)).is_ok());
    let del = AffiliateDeleteRequest { cluster_id: "x".to_string(), affiliate_id: "a1".to_string() };
    assert!(registry.affiliate_delete(del).is_ok());
    assert_eq!(list(&registry, "x"), Ok(vec![]));
    registry.run_gc_at(at(1001));
    assert_eq!(list(&registry, "x"), Err(Code::NotFound));
}

#[test]
fn watch_creates_cluster_lazily() {
    let mut registry = Registry::new();
    assert_eq!(list(&registry, "lazy"), Err(Code::NotFound));
    let sub = registry.watch(WatchRequest { cluster_id: "lazy".to_string() });
    assert!(sub.is_ok());
    assert_eq!(list(&registry, "lazy"), Ok(vec![]));
}

#[test]
fn gc_keeps_live_records_and_clusters() {
    let mut registry = Registry::new();
    assert!(registry.affiliate_update_at(update("k", "old", None, vec![], secs(5)), at(1000)).is_ok());
    assert!(registry.affiliate_update_at(update("k", "new", None, vec![], secs(100)), at(1000)).is_ok());
    assert!(registry.affiliate_update_at(update("gone", "a", None, vec![], secs(5)), at(1000)).is_ok());
    let mut sub = registry.watch(WatchRequest { cluster_id: "k".to_string() }).unwrap();
    registry.run_gc_at(at(1005));
    assert_eq!(list(&registry, "k"), Ok(vec!["new".to_string()]));
    assert_eq!(list(&registry, "gone"), Err(Code::NotFound));
    let event = sub.receiver.try_recv().unwrap();
    assert!(event.deleted);
    assert_eq!(event_ids(&event), vec!["old".to_string()]);
    // A sweep with nothing expired publishes nothing.
    registry.run_gc_at(at(1006));
    assert!(sub.receiver.try_recv().is_err());
}

#[test]
fn record_is_live_until_its_expiration() {
    let mut registry = Registry::new();
    let now = Timestamp::new(1000, 0).unwrap();
    assert!(registry.affiliate_update_at(update("x", "a1", None, vec![], secs(10)), now).is_ok());
    registry.run_gc_at(Timestamp::new(1009, 999_999_999).unwrap());
    assert_eq!(list(&registry, "x"), Ok(vec!["a1".to_string()]));
    registry.run_gc_at(at(1010));
    assert_eq!(list(&registry, "x"), Err(Code::NotFound));
}

#[test]
fn subscriber_gets_exactly_one_event_per_update() {
    let mut registry = Registry::new();
    let mut sub = registry.watch(WatchRequest { cluster_id: "p".to_string() }).unwrap();
    assert!(registry.affiliate_update_at(update("p", "a1", Some(vec![9]), vec![], secs(60)), at(1000)).is_ok());
    assert!(registry.affiliate_update_at(update("p", "a2", None, vec![], secs(60)), at(1000)).is_ok());
    let first = sub.receiver.try_recv().unwrap();
    assert_eq!(event_ids(&first), vec!["a1".to_string()]);
    assert_eq!(first.affiliates[0].data, vec![9]);
    let second = sub.receiver.try_recv().unwrap();
    assert_eq!(event_ids(&second), vec!["a1".to_string(), "a2".to_string()]);
    assert!(sub.receiver.try_recv().is_err());
}

#[test]
fn new_subscription_starts_with_current_membership() {
    let mut registry = Registry::new();
    assert!(registry.affiliate_update_at(update("m", "a1", Some(vec![1, 2]), vec![vec![3]], secs(60)), at(1000)).is_ok());
    assert!(registry.affiliate_update_at(update("m", "a2", None, vec![], secs(60)), at(1000)).is_ok());
    let sub = registry.watch(WatchRequest { cluster_id: "m".to_string() }).unwrap();
    assert!(!sub.initial.deleted);
    assert_eq!(event_ids(&sub.initial), vec!["a1".to_string(), "a2".to_string()]);
    let a1 = sub.initial.affiliates.iter().find(|a| a.id == "a1").unwrap();
    assert_eq!(a1.data, vec![1, 2]);
    assert_eq!(a1.endpoints, vec![vec![3]]);
}

#[test]
fn hello_reports_peer_address() {
    let resp = hello(Some(vec![10, 0, 0, 1])).unwrap();
    assert_eq!(resp.client_ip, vec![10, 0, 0, 1]);
    assert!(resp.redirect.is_none());
    let v6 = vec![0u8; 16];
    assert_eq!(hello(Some(v6.clone())).unwrap().client_ip, v6);
    assert_eq!(hello(None).unwrap_err().code, Code::InvalidArgument);
}

#[test]
fn not_found_message_names_cluster() {
    let registry = Registry::new();
    let err = registry.list(ListRequest { cluster_id: "abc".to_string() }).unwrap_err();
    assert_eq!(err.message, "Cluster ID abc not found");
}

#[test]
fn update_at_wall_clock_time() {
    let mut registry = Registry::new();
    assert!(registry.affiliate_update(update("c", "a1", None, vec![], secs(60))).is_ok());
    assert_eq!(list(&registry, "c"), Ok(vec!["a1".to_string()]));
    assert!(registry.affiliate_update(update("c", "a2", None, vec![], None)).is_err());
    registry.run_gc();
    assert_eq!(list(&registry, "c"), Ok(vec!["a1".to_string()]));
}
