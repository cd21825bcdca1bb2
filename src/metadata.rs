//! Bucket metadata: configuration, access policy and the stored record.
use vstd::prelude::*;

verus! {

/// Effect of a policy statement.
#[derive(Debug, Clone, Copy, PartialEq, Eq, Structural)]
pub enum Effect {
    Allow,
    Deny,
}

/// Object operations that a policy speaks of.
#[derive(Debug, Clone, Copy, PartialEq, Eq, Structural)]
pub enum Action {
    GetObject,
    PutObject,
    DeleteObject,
    ListBucket,
}

/// Storage settings of a bucket.
#[derive(Debug, Clone)]
pub struct BucketConfig {
    pub versioning: bool,
    pub dedup: bool,
    /// Days after which objects are removed, if set.
    pub lifecycle_days: Option<u32>,
}

/// Access policy of a bucket.
#[derive(Debug, Clone)]
pub struct BucketPolicy {
    pub effect: Effect,
    /// Operations the policy applies to.
    pub actions: Vec<Action>,
    /// Resources it applies to, such as bucket or object prefixes.
    pub resources: Vec<String>,
    /// Users or roles it applies to; `*` stands for anyone.
    pub principals: Vec<String>,
}

/// The stored record of a bucket.
#[derive(Debug, Clone)]
pub struct BucketMeta {
    /// Internal unique identifier.
    pub id: String,
    /// Name shown to users.
    pub name: String,
    /// Creation time, seconds since the Unix epoch.
    pub created_at: i64,
    pub owner: String,
    pub policy: Option<BucketPolicy>,
    pub config: BucketConfig,
}

impl BucketMeta {
    /// A new bucket record: no owner, no policy, versioning and deduplication
    /// off, no lifecycle.
    pub fn new(id: String, name: String, created_at: i64) -> (r: Self)
        ensures
            r.id@ == id@,
            r.name@ == name@,
            r.created_at == created_at,
            r.owner@ == Seq::<char>::empty(),
            r.policy is None,
            !r.config.versioning,
            !r.config.dedup,
            r.config.lifecycle_days is None,
    {
        BucketMeta {
            id,
            name,
            created_at,
            owner: String::new(),
            policy: None,
            config: BucketConfig { versioning: false, dedup: false, lifecycle_days: None },
        }
    }
}

} // verus!
