//! Tests for the TLS settings.

use nomad_lite::config::TlsConfig;
use nomad_lite::tls::{TlsError, TlsIdentity, TlsPaths, CLUSTER_DOMAIN};
use std::path::PathBuf;

/// Loads certificates where no file exists.
fn load_without_files(config: &TlsConfig) -> Result<TlsIdentity, TlsError> {
    let paths = TlsPaths::of(config)?;
    paths.check(false, false, false)?;
    panic!("no file exists")
}

#[test]
fn test_tls_config_is_complete() {
    let mut config = TlsConfig::default();
    assert!(!config.is_complete());

    config.enabled = true;
    assert!(!config.is_complete());

    config.ca_cert_path = Some(PathBuf::from("/tmp/ca.crt"));
    assert!(!config.is_complete());

    config.cert_path = Some(PathBuf::from("/tmp/node.crt"));
    assert!(!config.is_complete());

    config.key_path = Some(PathBuf::from("/tmp/node.key"));
    assert!(config.is_complete());
}

#[test]
fn test_load_missing_paths() {
    let config = TlsConfig {
        enabled: true,
        ca_cert_path: None,
        cert_path: None,
        key_path: None,
        allow_insecure: false,
    };

    let result = load_without_files(&config);
    assert!(matches!(result, Err(TlsError::MissingCaCert)));
}

#[test]
fn test_load_nonexistent_files() {
    let config = TlsConfig {
        enabled: true,
        ca_cert_path: Some(PathBuf::from("/nonexistent/ca.crt")),
        cert_path: Some(PathBuf::from("/nonexistent/node.crt")),
        key_path: Some(PathBuf::from("/nonexistent/node.key")),
        allow_insecure: false,
    };

    let result = load_without_files(&config);
    assert!(matches!(result, Err(TlsError::CaCertNotFound(_))));
}

#[test]
fn test_tls_config_default() {
    let config = TlsConfig::default();

    assert!(!config.enabled);
    assert!(config.ca_cert_path.is_none());
    assert!(config.cert_path.is_none());
    assert!(config.key_path.is_none());
    assert!(!config.allow_insecure);
}

#[test]
fn test_tls_config_is_complete_when_all_paths_set() {
    let config = TlsConfig {
        enabled: true,
        ca_cert_path: Some(PathBuf::from("/path/to/ca.crt")),
        cert_path: Some(PathBuf::from("/path/to/node.crt")),
        key_path: Some(PathBuf::from("/path/to/node.key")),
        allow_insecure: false,
    };

    assert!(config.is_complete());
}

#[test]
fn test_tls_config_is_not_complete_when_disabled() {
    let config = TlsConfig {
        enabled: false,
        ca_cert_path: Some(PathBuf::from("/path/to/ca.crt")),
        cert_path: Some(PathBuf::from("/path/to/node.crt")),
        key_path: Some(PathBuf::from("/path/to/node.key")),
        allow_insecure: false,
    };

    assert!(!config.is_complete());
}

#[test]
fn test_tls_config_is_not_complete_when_ca_missing() {
    let config = TlsConfig {
        enabled: true,
        ca_cert_path: None,
        cert_path: Some(PathBuf::from("/path/to/node.crt")),
        key_path: Some(PathBuf::from("/path/to/node.key")),
        allow_insecure: false,
    };

    assert!(!config.is_complete());
}

#[test]
fn test_tls_config_is_not_complete_when_cert_missing() {
    let config = TlsConfig {
        enabled: true,
        ca_cert_path: Some(PathBuf::from("/path/to/ca.crt")),
        cert_path: None,
        key_path: Some(PathBuf::from("/path/to/node.key")),
        allow_insecure: false,
    };

    assert!(!config.is_complete());
}

#[test]
fn test_tls_config_is_not_complete_when_key_missing() {
    let config = TlsConfig {
        enabled: true,
        ca_cert_path: Some(PathBuf::from("/path/to/ca.crt")),
        cert_path: Some(PathBuf::from("/path/to/node.crt")),
        key_path: None,
        allow_insecure: false,
    };

    assert!(!config.is_complete());
}

fn complete() -> TlsConfig {
    TlsConfig {
        enabled: true,
        ca_cert_path: Some(PathBuf::from("/ca.crt")),
        cert_path: Some(PathBuf::from("/node.crt")),
        key_path: Some(PathBuf::from("/node.key")),
        allow_insecure: false,
    }
}

#[test]
fn the_first_missing_setting_is_told() {
    let mut config = complete();
    config.key_path = None;
    assert!(matches!(TlsPaths::of(&config), Err(TlsError::MissingKey)));
    config.cert_path = None;
    assert!(matches!(TlsPaths::of(&config), Err(TlsError::MissingCert)));
    config.ca_cert_path = None;
    assert!(matches!(TlsPaths::of(&config), Err(TlsError::MissingCaCert)));
}

#[test]
fn the_first_missing_file_is_told() {
    let paths = TlsPaths::of(&complete()).unwrap();
    match paths.check(true, false, false) {
        Err(TlsError::CertNotFound(path)) => assert_eq!(path, PathBuf::from("/node.crt")),
        _ => panic!("the certificate is missing"),
    }
    match paths.check(true, true, false) {
        Err(TlsError::KeyNotFound(path)) => assert_eq!(path, PathBuf::from("/node.key")),
        _ => panic!("the key is missing"),
    }
    assert!(paths.check(true, true, true).is_ok());
}

#[test]
fn files_make_an_identity() {
    let identity = TlsIdentity::of_files(Ok(vec![1]), Ok(vec![2]), Ok(vec![3])).unwrap();
    assert_eq!(identity.ca_pem, vec![1]);
    assert_eq!(identity.cert_pem, vec![2]);
    assert_eq!(identity.key_pem, vec![3]);
    match TlsIdentity::of_files(Ok(vec![1]), Err("gone".to_string()), Ok(vec![3])) {
        Err(TlsError::IoError(e)) => assert_eq!(e, "gone"),
        _ => panic!("a file could not be read"),
    }
    assert_eq!(CLUSTER_DOMAIN, "nomad-lite-cluster");
}

fn node_files(ca: &str, cert: &str, key: &str) -> TlsPaths {
    let config = TlsConfig {
        enabled: true,
        ca_cert_path: Some(PathBuf::from(ca)),
        cert_path: Some(PathBuf::from(cert)),
        key_path: Some(PathBuf::from(key)),
        allow_insecure: false,
    };
    TlsPaths::of(&config).unwrap()
}

#[test]
fn test_load_nonexistent_ca_cert() {
    let result = node_files("/nonexistent/ca.crt", "node1.crt", "node1.key").check(false, true, true);
    assert!(result.is_err(), "Should fail with nonexistent CA cert");
}

#[test]
fn test_load_nonexistent_node_cert() {
    let result = node_files("ca.crt", "/nonexistent/node.crt", "node1.key").check(true, false, true);
    assert!(result.is_err(), "Should fail with nonexistent node cert");
}

#[test]
fn test_load_nonexistent_key() {
    let result = node_files("ca.crt", "node1.crt", "/nonexistent/node.key").check(true, true, false);
    assert!(result.is_err(), "Should fail with nonexistent key");
}
