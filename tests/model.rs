use std::time::Instant;

use s3gate::config::{IsolationLevel, SecurityConfig, StorageEngine};
use s3gate::gateway::load_config;
use s3gate::metadata::{Action, BucketConfig, BucketMeta, BucketPolicy, Effect};
use s3gate::server::MaxServer;
use s3gate::writer::ObjectGroup;

#[test]
fn object_group_records_offsets() {
    let mut g = ObjectGroup::new(Instant::now());
    assert_eq!(g.size(), 0);
    assert_eq!(g.locate("a.txt"), None);
    g.add_file("a.txt", b"hello");
    g.add_file("b.txt", b"world!");
    assert_eq!(g.size(), 11);
    assert_eq!(g.locate("a.txt"), Some((0, 5)));
    assert_eq!(g.locate("b.txt"), Some((5, 6)));
    g.add_file("a.txt", b"xy");
    assert_eq!(g.locate("a.txt"), Some((11, 2)));
    assert_eq!(g.locate("b.txt"), Some((5, 6)));
    assert_eq!(g.size(), 13);
    g.add_file("empty", b"");
    assert_eq!(g.locate("empty"), Some((13, 0)));
}

#[test]
fn max_server_keeps_its_address() {
    let s = MaxServer::new("127.0.0.1:7000");
    assert_eq!(s.address(), "127.0.0.1:7000");
    let t = s.clone();
    assert_eq!(t.address(), "127.0.0.1:7000");
}

#[test]
fn gateway_config_defaults() {
    let c = load_config();
    assert_eq!(c.port, 0);
    assert_eq!(c.address, "");
}

#[test]
fn security_config_credentials() {
    let mut c = SecurityConfig {
        enable_tls: false,
        cert_path: None,
        key_path: None,
        access_key: Some("AK".to_string()),
        secret_key: Some("SK".to_string()),
        allow_anonymous: false,
    };
    let creds = c.credentials();
    assert_eq!(creds.len(), 1);
    assert_eq!(creds[0].access_key, b"AK".to_vec());
    assert_eq!(creds[0].secret_key, b"SK".to_vec());
    c.secret_key = None;
    assert!(c.credentials().is_empty());
}

#[test]
fn metadata_values() {
    let meta = BucketMeta {
        id: "id-1".to_string(),
        name: "photos".to_string(),
        created_at: 1_700_000_000,
        owner: String::new(),
        policy: Some(BucketPolicy {
            effect: Effect::Allow,
            actions: vec![Action::GetObject, Action::ListBucket],
            resources: vec!["photos/*".to_string()],
            principals: vec!["*".to_string()],
        }),
        config: BucketConfig { versioning: false, dedup: true, lifecycle_days: Some(30) },
    };
    let copy = meta.clone();
    assert_eq!(copy.name, "photos");
    assert_eq!(copy.config.lifecycle_days, Some(30));
    assert_eq!(copy.policy.unwrap().actions, vec![Action::GetObject, Action::ListBucket]);
    assert_ne!(StorageEngine::Lsm, StorageEngine::Sharded);
    assert_eq!(IsolationLevel::Serializable, IsolationLevel::Serializable);
}

#[test]
fn new_bucket_record_defaults() {
    let m = BucketMeta::new("0190-id".to_string(), "abcXYZ0123".to_string(), 42);
    assert_eq!(m.id, "0190-id");
    assert_eq!(m.name, "abcXYZ0123");
    assert_eq!(m.created_at, 42);
    assert_eq!(m.owner, "");
    assert!(m.policy.is_none());
    assert!(!m.config.versioning);
    assert!(!m.config.dedup);
    assert_eq!(m.config.lifecycle_days, None);
}
