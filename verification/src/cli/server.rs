use std::path::PathBuf;

use crate::cli::peers;
use crate::cli::peers::parse_peers;
use crate::config::{NodeConfig, SandboxConfig, TlsConfig};
use crate::text;
use crate::text::decimal_text;
use vstd::prelude::*;
use vstd::string::*;

verus! {

/// How a server is started.
#[derive(Debug)]
pub struct ServerArgs {
    pub node_id: u64,
    pub port: u16,
    pub dashboard_port: Option<u16>,
    /// Peers, separated by commas, in the form `id:host:port`.
    pub peers: String,
    /// Docker image for jobs.
    pub image: String,
    pub tls: bool,
    pub ca_cert: Option<PathBuf>,
    pub cert: Option<PathBuf>,
    pub key: Option<PathBuf>,
    pub allow_insecure: bool,
    pub data_dir: Option<PathBuf>,
    pub advertise_addr: Option<String>,
}

/// Whether certificates are to be loaded.
#[derive(Debug, Clone, Copy, PartialEq, Eq, Structural)]
pub enum TlsPlan {
    /// Load them.
    Load,
    /// TLS was asked for without naming all files: go without it, with a warning.
    Incomplete,
    /// TLS was not asked for, in a cluster of several nodes: go without it, with a warning.
    PlainCluster,
    /// TLS was not asked for.
    Plain,
}

/// What is said when TLS was asked for without naming all files.
pub open spec fn missing_paths_text() -> Seq<char> {
    "TLS enabled but missing required paths (--ca-cert, --cert, --key)"@
}

/// Whether certificates are to be loaded, by the settings and the list of peers.
pub fn tls_plan(tls: &TlsConfig, peers: &str) -> (r: Result<TlsPlan, String>)
    ensures
        if tls.enabled {
            if tls.ca_cert_path is Some && tls.cert_path is Some && tls.key_path is Some {
                r == Ok::<TlsPlan, String>(TlsPlan::Load)
            } else if tls.allow_insecure {
                r == Ok::<TlsPlan, String>(TlsPlan::Incomplete)
            } else {
                r matches Err(e) && e@ == missing_paths_text()
            }
        } else if peers@.len() > 0 {
            r == Ok::<TlsPlan, String>(TlsPlan::PlainCluster)
        } else {
            r == Ok::<TlsPlan, String>(TlsPlan::Plain)
        },
{
    if tls.is_complete() {
        Ok(TlsPlan::Load)
    } else if tls.enabled {
        if tls.allow_insecure {
            Ok(TlsPlan::Incomplete)
        } else {
            Err("TLS enabled but missing required paths (--ca-cert, --cert, --key)".to_owned())
        }
    } else if !peers.is_empty() {
        Ok(TlsPlan::PlainCluster)
    } else {
        Ok(TlsPlan::Plain)
    }
}

/// Tells whether the server uses TLS after loading the certificates. Certificates that could not
/// be loaded stop the server unless it may go without.
pub fn tls_after_load(loaded: Result<(), String>, allow_insecure: bool) -> (r: Result<bool, String>)
    ensures
        match loaded {
            Ok(_) => r == Ok::<bool, String>(true),
            Err(e) => if allow_insecure {
                r == Ok::<bool, String>(false)
            } else {
                r matches Err(message) && message@ == "TLS certificate loading failed: "@ + e@
            },
        },
{
    match loaded {
        Ok(_) => Ok(true),
        Err(e) => {
            if allow_insecure {
                Ok(false)
            } else {
                Err("TLS certificate loading failed: ".to_owned().concat(e.as_str()))
            }
        },
    }
}

/// The port on all interfaces.
pub open spec fn any_interface(port: u16) -> Seq<char> {
    "0.0.0.0:"@ + text::decimal(port as nat)
}

/// Where the dashboard listens, where there is one.
pub fn dashboard_addr(port: Option<u16>) -> (r: Option<String>)
    ensures
        text::opt_text(r) == (match port {
            Some(p) => Some(any_interface(p)),
            None => None,
        }),
{
    match port {
        Some(p) => Some("0.0.0.0:".to_owned().concat(decimal_text(p as u64).as_str())),
        None => None,
    }
}

/// The TLS settings of a server.
pub fn tls_settings(args: &ServerArgs) -> (r: TlsConfig)
    ensures
        r == (TlsConfig {
            enabled: args.tls,
            ca_cert_path: args.ca_cert,
            cert_path: args.cert,
            key_path: args.key,
            allow_insecure: args.allow_insecure,
        }),
{
    TlsConfig {
        enabled: args.tls,
        ca_cert_path: args.ca_cert.clone(),
        cert_path: args.cert.clone(),
        key_path: args.key.clone(),
        allow_insecure: args.allow_insecure,
    }
}

/// The settings of a server. It listens on all interfaces and is reached, unless told otherwise,
/// under its port on the loopback interface.
pub fn server_config(args: &ServerArgs) -> (r: NodeConfig)
    ensures
        r.node_id == args.node_id,
        r.listen_addr@ == any_interface(args.port),
        r.advertise_addr@ == (match args.advertise_addr {
            Some(addr) => addr@,
            None => "127.0.0.1:"@ + text::decimal(args.port as nat),
        }),
        peers::peer_views(r.peers@) == peers::peers_of(text::split(args.peers@, ',')),
        r.election_timeout_min_ms == 150,
        r.election_timeout_max_ms == 300,
        r.heartbeat_interval_ms == 50,
        r.sandbox.image@ == args.image@,
        r.sandbox.network_disabled,
        text::opt_text(r.sandbox.memory_limit) == Some("256m"@),
        text::opt_text(r.sandbox.cpu_limit) == Some("0.5"@),
        r.sandbox.timeout_secs == 30,
        r.tls == (TlsConfig {
            enabled: args.tls,
            ca_cert_path: args.ca_cert,
            cert_path: args.cert,
            key_path: args.key,
            allow_insecure: args.allow_insecure,
        }),
        r.data_dir == args.data_dir,
{
    let mut sandbox = SandboxConfig::default();
    sandbox.image = args.image.clone();
    NodeConfig {
        node_id: args.node_id,
        listen_addr: "0.0.0.0:".to_owned().concat(decimal_text(args.port as u64).as_str()),
        advertise_addr: match &args.advertise_addr {
            Some(addr) => addr.clone(),
            None => "127.0.0.1:".to_owned().concat(decimal_text(args.port as u64).as_str()),
        },
        peers: parse_peers(args.peers.as_str()),
        election_timeout_min_ms: 150,
        election_timeout_max_ms: 300,
        heartbeat_interval_ms: 50,
        sandbox,
        tls: tls_settings(args),
        data_dir: args.data_dir.clone(),
    }
}

} // verus!
