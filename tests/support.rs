use talos_discovery::client::{affiliate_id, hash, Chat, ClientCommand};
use talos_discovery::config::Config;
use talos_discovery::protocol::{check_update_limits, AffiliateUpdateRequest, Code, Ttl};
use talos_discovery::time::{now, Timestamp};

#[test]
fn timestamp_rejects_unnormalised_nanos() {
    assert!(Timestamp::new(1, 999_999_999).is_some());
    assert!(Timestamp::new(1, 1_000_000_000).is_none());
}

#[test]
fn timestamp_add_carries_nanoseconds() {
    let t = Timestamp::new(10, 900_000_000).unwrap();
    assert_eq!(t.checked_add(5, 200_000_000), Timestamp::new(16, 100_000_000));
    assert_eq!(t.checked_add(0, 3_000_000_000), Timestamp::new(13, 900_000_000));
    let max = Timestamp::new(u64::MAX, 999_999_999).unwrap();
    assert_eq!(max.checked_add(0, 1), None);
    assert_eq!(max.checked_add(1, 0), None);
    assert_eq!(Timestamp::new(u64::MAX - 1, 0).unwrap().checked_add(1, 0), Timestamp::new(u64::MAX, 0));
}

#[test]
fn timestamp_order() {
    let a = Timestamp::new(5, 10).unwrap();
    let b = Timestamp::new(5, 11).unwrap();
    let c = Timestamp::new(6, 0).unwrap();
    assert!(a.is_at_or_before(a));
    assert!(a.is_at_or_before(b));
    assert!(!b.is_at_or_before(a));
    assert!(b.is_at_or_before(c));
    assert!(!c.is_at_or_before(b));
}

#[test]
fn wall_clock_is_after_2020() {
    let t = now().unwrap();
    assert!(t.secs_since_epoch > 1_577_836_800);
}

#[test]
fn limits_accept_a_plain_update() {
    let req = AffiliateUpdateRequest {
        cluster_id: "x".to_string(),
        affiliate_id: "a".to_string(),
        affiliate_data: None,
        affiliate_endpoints: vec![],
        ttl: None,
    };
    assert!(check_update_limits(&req).is_ok());
    let mut bad = req.clone();
    bad.ttl = Some(Ttl { seconds: 0, nanos: 0 });
    assert_eq!(check_update_limits(&bad).unwrap_err().code, Code::InvalidArgument);
}

#[test]
fn sha256_hash_of_text() {
    assert_eq!(
        hash(&"hello".to_string()),
        "2cf24dba5fb0a30e26e83b2ac5b9e29e1b161e5c1fa7425e73043362938b9824"
    );
}

#[test]
fn chat_joins_digest_of_chatroom() {
    let chat = Chat::new("room".to_string(), "me".to_string(), None);
    assert_eq!(chat.chatroom, "room");
    assert_eq!(chat.username, "me");
    assert!(chat.password.is_none());
    let cmd = ClientCommand::Chat(chat);
    assert_eq!(cmd.cluster_id("default".to_string()), hash(&"room".to_string()));
    assert_eq!(ClientCommand::Upload.cluster_id("default".to_string()), "default");
    assert_eq!(affiliate_id(), hash(&"my-going-to-be-random-id".to_string()));
    assert_eq!(affiliate_id().len(), 64);
}

#[test]
fn config_defaults() {
    let c = Config::default();
    assert_eq!(c.port, 3000);
    assert_eq!(c.gc_interval, 60);
    assert_eq!(c.backup_interval, 600);
    assert!(c.backup_path.is_none());
    assert!(!c.backups_enabled());
}
