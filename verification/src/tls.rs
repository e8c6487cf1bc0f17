//! The certificates by which nodes know each other.

use std::path::PathBuf;

use crate::config::TlsConfig;
use vstd::prelude::*;

verus! {

/// Name under which every node of a cluster is verified: nodes are reached by address, and the
/// authority of the cluster vouches for all of them.
pub const CLUSTER_DOMAIN: &'static str = "nomad-lite-cluster";

/// What can be wrong with the TLS settings.
#[derive(Debug)]
pub enum TlsError {
    /// No certificate of the authority is named.
    MissingCaCert,
    /// No certificate of the node is named.
    MissingCert,
    /// No private key is named.
    MissingKey,
    /// There is no certificate of the authority at the path.
    CaCertNotFound(PathBuf),
    /// There is no certificate of the node at the path.
    CertNotFound(PathBuf),
    /// There is no private key at the path.
    KeyNotFound(PathBuf),
    /// A file could not be read.
    IoError(String),
}

/// Where the files are.
#[derive(Debug)]
pub struct TlsPaths {
    pub ca_cert: PathBuf,
    pub cert: PathBuf,
    pub key: PathBuf,
}

/// The certificates and the key of a node, as read from their files.
#[derive(Debug)]
pub struct TlsIdentity {
    pub ca_pem: Vec<u8>,
    pub cert_pem: Vec<u8>,
    pub key_pem: Vec<u8>,
}

/// The first setting that is missing.
pub open spec fn missing_setting(config: TlsConfig) -> Option<TlsError> {
    if config.ca_cert_path is None {
        Some(TlsError::MissingCaCert)
    } else if config.cert_path is None {
        Some(TlsError::MissingCert)
    } else if config.key_path is None {
        Some(TlsError::MissingKey)
    } else {
        None
    }
}

/// The first file that is missing.
pub open spec fn missing_file(
    paths: TlsPaths,
    ca_exists: bool,
    cert_exists: bool,
    key_exists: bool,
) -> Option<TlsError> {
    if !ca_exists {
        Some(TlsError::CaCertNotFound(paths.ca_cert))
    } else if !cert_exists {
        Some(TlsError::CertNotFound(paths.cert))
    } else if !key_exists {
        Some(TlsError::KeyNotFound(paths.key))
    } else {
        None
    }
}

impl TlsPaths {
    /// Where the files are, by the settings.
    pub fn of(config: &TlsConfig) -> (r: Result<Self, TlsError>)
        ensures
            match missing_setting(*config) {
                Some(e) => r == Err::<TlsPaths, TlsError>(e),
                None => r == Ok::<TlsPaths, TlsError>(
                    TlsPaths {
                        ca_cert: config.ca_cert_path->0,
                        cert: config.cert_path->0,
                        key: config.key_path->0,
                    },
                ),
            },
    {
        let ca_cert = match &config.ca_cert_path {
            Some(path) => path.clone(),
            None => {
                return Err(TlsError::MissingCaCert);
            },
        };
        let cert = match &config.cert_path {
            Some(path) => path.clone(),
            None => {
                return Err(TlsError::MissingCert);
            },
        };
        let key = match &config.key_path {
            Some(path) => path.clone(),
            None => {
                return Err(TlsError::MissingKey);
            },
        };
        Ok(TlsPaths { ca_cert, cert, key })
    }

    /// Tells which file is missing, from what is known of each.
    pub fn check(&self, ca_exists: bool, cert_exists: bool, key_exists: bool) -> (r: Result<
        (),
        TlsError,
    >)
        ensures
            match missing_file(*self, ca_exists, cert_exists, key_exists) {
                Some(e) => r == Err::<(), TlsError>(e),
                None => r is Ok,
            },
    {
        if !ca_exists {
            return Err(TlsError::CaCertNotFound(self.ca_cert.clone()));
        }
        if !cert_exists {
            return Err(TlsError::CertNotFound(self.cert.clone()));
        }
        if !key_exists {
            return Err(TlsError::KeyNotFound(self.key.clone()));
        }
        Ok(())
    }
}

impl TlsIdentity {
    /// The certificates and the key, out of what reading the files gave. The first file that
    /// could not be read is the one told of.
    pub fn of_files(
        ca: Result<Vec<u8>, String>,
        cert: Result<Vec<u8>, String>,
        key: Result<Vec<u8>, String>,
    ) -> (r: Result<Self, TlsError>)
        ensures
            match (ca, cert, key) {
                (Err(e), _, _) => r == Err::<TlsIdentity, TlsError>(TlsError::IoError(e)),
                (_, Err(e), _) => r == Err::<TlsIdentity, TlsError>(TlsError::IoError(e)),
                (_, _, Err(e)) => r == Err::<TlsIdentity, TlsError>(TlsError::IoError(e)),
                (Ok(ca_pem), Ok(cert_pem), Ok(key_pem)) => r == Ok::<TlsIdentity, TlsError>(
                    TlsIdentity { ca_pem, cert_pem, key_pem },
                ),
            },
    {
        let ca_pem = match ca {
            Ok(pem) => pem,
            Err(e) => {
                return Err(TlsError::IoError(e));
            },
        };
        let cert_pem = match cert {
            Ok(pem) => pem,
            Err(e) => {
                return Err(TlsError::IoError(e));
            },
        };
        let key_pem = match key {
            Ok(pem) => pem,
            Err(e) => {
                return Err(TlsError::IoError(e));
            },
        };
        Ok(TlsIdentity { ca_pem, cert_pem, key_pem })
    }
}

} // verus!
