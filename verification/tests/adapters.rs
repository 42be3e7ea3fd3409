//! Tests for the storage adapter plumbing, deployment defaults, and the
//! worker's upload-path logic.

use falconeri::connect_via::ConnectVia;
use falconeri::deploy::default_config;
use falconeri::secret::Secret;
use falconeri::storage::{dedup_listing, CloudStorage, S3Storage};
use falconeri::worker::upload_uri;

#[test]
fn backend_is_chosen_by_scheme() {
    let secrets: Vec<Secret> = vec![];
    assert!(matches!(
        CloudStorage::for_uri("gs://bucket/path", &secrets),
        Ok(CloudStorage::GoogleCloud(_))
    ));
    assert!(matches!(
        CloudStorage::for_uri("s3://bucket/path", &secrets),
        Ok(CloudStorage::S3(_))
    ));
    assert!(CloudStorage::for_uri("ftp://bucket/path", &secrets).is_err());
}

#[test]
fn s3_backend_picks_the_aws_secret() {
    let secrets = vec![
        Secret::Mount { name: "ssl".to_string(), mount_path: "/ssl".to_string() },
        Secret::Env {
            name: "other".to_string(),
            key: "OTHER_KEY".to_string(),
            env_var: "OTHER_VAR".to_string(),
        },
        Secret::Env {
            name: "s3-creds".to_string(),
            key: "AWS_ACCESS_KEY_ID".to_string(),
            env_var: "AWS_ACCESS_KEY_ID".to_string(),
        },
    ];
    let backend = S3Storage::new(&secrets).unwrap();
    assert_eq!(backend.secret_name.as_deref(), Some("s3-creds"));
    let bare = S3Storage::new(&vec![]).unwrap();
    assert_eq!(bare.secret_name, None);
    let named = S3Storage::new_with_secret("my-secret").unwrap();
    assert_eq!(named.secret_name.as_deref(), Some("my-secret"));
}

#[test]
fn listings_are_deduplicated_in_first_appearance_order() {
    let raw = vec![
        "gs://b/in/b.csv".to_string(),
        "gs://b/in/a.csv".to_string(),
        "gs://b/in/b.csv".to_string(),
        "gs://b/in/a.csv".to_string(),
    ];
    assert_eq!(dedup_listing(&raw), vec!["gs://b/in/b.csv", "gs://b/in/a.csv"]);
    let empty: Vec<String> = vec![];
    assert_eq!(dedup_listing(&empty), empty);
}

#[test]
fn upload_uri_normalizes_the_egress_prefix() {
    assert_eq!(upload_uri("gs://b/out", "x/y.csv"), "gs://b/out/x/y.csv");
    assert_eq!(upload_uri("gs://b/out/", "x/y.csv"), "gs://b/out/x/y.csv");
}

#[test]
fn retries_depend_on_how_we_connect() {
    assert!(ConnectVia::Cluster.should_retry_by_default());
    assert!(!ConnectVia::Proxy.should_retry_by_default());
}

#[test]
fn deployment_defaults_differ_by_environment() {
    let dev = default_config(true, "1.2.3");
    assert_eq!(dev.env, "development");
    assert_eq!(dev.falconerid_replicas, 1);
    assert!(dev.use_local_image);
    assert_eq!(dev.version, "1.2.3");
    let prod = default_config(false, "1.2.3");
    assert_eq!(prod.env, "production");
    assert_eq!(prod.falconerid_replicas, 2);
    assert_eq!(prod.postgres_storage, "10Gi");
    assert!(!prod.use_local_image);
}
