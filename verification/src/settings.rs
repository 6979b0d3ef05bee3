//! Service configuration: an explicit settings value constructed at
//! startup, with the defaults each reader applies.

use vstd::prelude::*;

verus! {

/// Configuration for a filesystem-backed store.
#[derive(Debug)]
pub struct LocalStoreConfig {
    pub path: String,
}

/// Configuration for an object-storage-backed store.
#[derive(Debug)]
pub struct S3StoreConfig {
    pub bucket: String,
    pub region: String,
    pub path: String,
    pub refresh_rate: u64,
}

/// The service's settings as loaded from its configuration files; an absent
/// entry takes its documented default.
#[derive(Debug)]
pub struct Settings {
    pub http_workers: Option<usize>,
    pub json_payload_limit: Option<usize>,
    pub secure_cookie: Option<bool>,
    pub store_kind: Option<String>,
    pub store_path: Option<String>,
    pub s3_bucket: Option<String>,
    pub s3_region: Option<String>,
    pub s3_refresh_rate: Option<u64>,
}

impl Settings {
    /// A settings value with every entry left to its default.
    pub fn empty() -> (r: Settings)
        ensures
            r.http_workers is None,
            r.json_payload_limit is None,
            r.secure_cookie is None,
            r.store_kind is None,
            r.store_path is None,
            r.s3_bucket is None,
            r.s3_region is None,
            r.s3_refresh_rate is None,
    {
        Settings {
            http_workers: None,
            json_payload_limit: None,
            secure_cookie: None,
            store_kind: None,
            store_path: None,
            s3_bucket: None,
            s3_region: None,
            s3_refresh_rate: None,
        }
    }
}

/// How many worker threads serve requests; 1 when unset.
pub fn http_workers(s: &Settings) -> (r: usize)
    ensures
        r == match s.http_workers {
            Some(n) => n,
            None => 1usize,
        },
{
    match s.http_workers {
        Some(n) => n,
        None => 1,
    }
}

/// The request payload cap in bytes; 1048576 when unset.
pub fn json_payload_limit(s: &Settings) -> (r: usize)
    ensures
        r == match s.json_payload_limit {
            Some(n) => n,
            None => 1048576usize,
        },
{
    match s.json_payload_limit {
        Some(n) => n,
        None => 1048576,
    }
}

/// Whether the tracking cookie is marked secure; false when unset.
pub fn secure_cookie(s: &Settings) -> (r: bool)
    ensures
        r == match s.secure_cookie {
            Some(b) => b,
            None => false,
        },
{
    match s.secure_cookie {
        Some(b) => b,
        None => false,
    }
}

/// Which store backs persistence; "local" when unset.
pub fn store_kind(s: &Settings) -> (r: String)
    ensures
        r@ == match s.store_kind {
            Some(k) => k@,
            None => "local"@,
        },
{
    match &s.store_kind {
        Some(k) => k.clone(),
        None => String::from_str("local"),
    }
}

/// The filesystem store's configuration; path "data" when unset.
pub fn local_store_config(s: &Settings) -> (r: LocalStoreConfig)
    ensures
        r.path@ == match s.store_path {
            Some(p) => p@,
            None => "data"@,
        },
{
    let path = match &s.store_path {
        Some(p) => p.clone(),
        None => String::from_str("data"),
    };
    LocalStoreConfig { path }
}

/// The object store's configuration, with its documented defaults: bucket
/// "abof-data", region "ap-south-1", path "data", refresh every 10 seconds.
pub fn s3_store_config(s: &Settings) -> (r: S3StoreConfig)
    ensures
        r.bucket@ == match s.s3_bucket {
            Some(b) => b@,
            None => "abof-data"@,
        },
        r.region@ == match s.s3_region {
            Some(x) => x@,
            None => "ap-south-1"@,
        },
        r.path@ == match s.store_path {
            Some(p) => p@,
            None => "data"@,
        },
        r.refresh_rate == match s.s3_refresh_rate {
            Some(x) => x,
            None => 10u64,
        },
{
    S3StoreConfig {
        bucket: match &s.s3_bucket {
            Some(b) => b.clone(),
            None => String::from_str("abof-data"),
        },
        region: match &s.s3_region {
            Some(x) => x.clone(),
            None => String::from_str("ap-south-1"),
        },
        path: match &s.store_path {
            Some(p) => p.clone(),
            None => String::from_str("data"),
        },
        refresh_rate: match s.s3_refresh_rate {
            Some(x) => x,
            None => 10,
        },
    }
}

/// The two configuration files a startup loads and merges in order: the
/// defaults file, then the environment's overrides.
pub fn config_file_paths(base_dir: &str, env: &str) -> (r: (String, String))
    ensures
        r.0@ == base_dir@ + "/service-default.yml"@,
        r.1@ == base_dir@ + "/service-"@ + env@ + ".yml"@,
{
    proof {
        reveal_strlit("");
    }
    let first = crate::errors::join3(base_dir, "/service-default.yml", "");
    let mut second = crate::errors::join3(base_dir, "/service-", env);
    second.append(".yml");
    proof {
        assert(first@ =~= base_dir@ + "/service-default.yml"@);
        assert(second@ =~= base_dir@ + "/service-"@ + env@ + ".yml"@);
    }
    (first, second)
}

} // verus!
