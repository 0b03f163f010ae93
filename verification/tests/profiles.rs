//! The profile collection: create, update, delete, and the store-side
//! connection types.

use s3gui_core::config::{
    create_profile, delete_profile, update_profile, AddressingStyle, Config, ConfigError,
    Profile, Provider, SignatureVersion,
};
use s3gui_core::store;

fn sample_profile(config: &mut Config, name: &str) -> Profile {
    create_profile(
        config,
        name.to_string(),
        Provider::AwsS3,
        None,
        "us-east-1".to_string(),
        "AKSAMPLE".to_string(),
        "testsecret".to_string(),
        AddressingStyle::VirtualHosted,
        SignatureVersion::V4,
    )
}

#[test]
fn create_profile_appends_and_returns_the_profile() {
    let mut config = Config::default();
    let p = sample_profile(&mut config, "main");
    assert_eq!(config.profiles.len(), 1);
    assert_eq!(p.name, "main");
    assert_eq!(p.region, "us-east-1");
    assert_eq!(p.id.chars().count(), 36);
    assert_eq!(config.profiles[0].id, p.id);
}

#[test]
fn update_profile_replaces_by_identifier() {
    let mut config = Config::default();
    let p = sample_profile(&mut config, "main");
    let mut changed = p.clone();
    changed.name = "renamed".to_string();
    changed.region = "eu-west-1".to_string();

    update_profile(&mut config, changed).expect("the identifier is stored");
    assert_eq!(config.profiles.len(), 1);
    assert_eq!(config.profiles[0].name, "renamed");
    assert_eq!(config.profiles[0].region, "eu-west-1");
}

#[test]
fn update_unknown_profile_is_not_found() {
    let mut config = Config::default();
    sample_profile(&mut config, "main");
    let mut stranger = config.profiles[0].clone();
    stranger.id = "unknown-id".to_string();
    match update_profile(&mut config, stranger) {
        Err(ConfigError::ProfileNotFound(m)) => assert_eq!(m, "unknown-id"),
        other => panic!("expected not-found, got {:?}", other),
    }
    assert_eq!(config.profiles[0].name, "main");
}

#[test]
fn delete_profile_removes_by_identifier() {
    let mut config = Config::default();
    let a = sample_profile(&mut config, "a");
    let b = sample_profile(&mut config, "b");
    delete_profile(&mut config, &a.id).expect("the identifier is stored");
    assert_eq!(config.profiles.len(), 1);
    assert_eq!(config.profiles[0].id, b.id);

    match delete_profile(&mut config, &a.id) {
        Err(ConfigError::ProfileNotFound(m)) => assert_eq!(m, a.id),
        other => panic!("expected not-found, got {:?}", other),
    }
}

#[test]
fn config_error_messages() {
    assert_eq!(
        ConfigError::ReadError("no file".to_string()).message(),
        "Failed to read config file: no file"
    );
    assert_eq!(
        ConfigError::ParseError("bad json".to_string()).message(),
        "Failed to parse config: bad json"
    );
    assert_eq!(
        ConfigError::ProfileNotFound("pid".to_string()).message(),
        "Profile not found: pid"
    );
}

#[test]
fn store_side_defaults() {
    assert_eq!(store::SignatureVersion::default(), store::SignatureVersion::V4);
    let d = store::DeleteObjectsResult::default();
    assert_eq!(d.deleted, 0);
    assert!(d.errors.is_empty());
}

#[test]
fn client_builder_keeps_the_profile() {
    let profile = store::Profile {
        name: "main".to_string(),
        access_key_id: "AKSAMPLE".to_string(),
        secret_access_key: "testsecret".to_string(),
        region: "us-east-1".to_string(),
        endpoint: Some("http://localhost:9000".to_string()),
        path_style: true,
        signature_version: store::SignatureVersion::V4,
    };
    let builder = store::S3ClientBuilder::new(profile);
    assert_eq!(builder.profile.name, "main");
    assert_eq!(builder.profile.endpoint.as_deref(), Some("http://localhost:9000"));
    assert!(builder.profile.path_style);
}
