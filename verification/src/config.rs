use std::path::PathBuf;

use crate::text;
use vstd::prelude::*;

verus! {

/// A path of the file system.
#[verifier::external_type_specification]
#[verifier::external_body]
pub struct ExPathBuf(std::path::PathBuf);

/// `PathBuf`'s `clone` gives a duplicate of the path.
pub assume_specification[ <PathBuf as Clone>::clone ](path: &PathBuf) -> (r: PathBuf)
    ensures
        r == *path,
;

/// How jobs are run in Docker containers.
#[derive(Debug)]
pub struct SandboxConfig {
    /// Docker image to run jobs in.
    pub image: String,
    /// No network access in the container.
    pub network_disabled: bool,
    /// Memory limit, such as "256m".
    pub memory_limit: Option<String>,
    /// CPU limit, such as "0.5" for half a CPU.
    pub cpu_limit: Option<String>,
    /// Seconds after which a job is stopped.
    pub timeout_secs: u64,
}

impl Clone for SandboxConfig {
    fn clone(&self) -> (r: Self)
        ensures
            r == *self,
    {
        SandboxConfig {
            image: self.image.clone(),
            network_disabled: self.network_disabled,
            memory_limit: self.memory_limit.clone(),
            cpu_limit: self.cpu_limit.clone(),
            timeout_secs: self.timeout_secs,
        }
    }
}

/// The settings that a node uses unless told otherwise.
pub open spec fn default_sandbox(c: SandboxConfig) -> bool {
    &&& c.image@ == "alpine:latest"@
    &&& c.network_disabled
    &&& text::opt_text(c.memory_limit) == Some("256m"@)
    &&& text::opt_text(c.cpu_limit) == Some("0.5"@)
    &&& c.timeout_secs == 30
}

impl Default for SandboxConfig {
    fn default() -> (r: Self)
        ensures
            default_sandbox(r),
    {
        SandboxConfig {
            image: "alpine:latest".to_owned(),
            network_disabled: true,
            memory_limit: Some("256m".to_owned()),
            cpu_limit: Some("0.5".to_owned()),
            timeout_secs: 30,
        }
    }
}

/// TLS settings. When enabled, nodes authenticate each other: both sides present a certificate
/// signed by the authority of the cluster and verify that of the other.
#[derive(Debug)]
pub struct TlsConfig {
    /// Use TLS. The other settings count only then.
    pub enabled: bool,
    /// Certificate of the authority, to verify peers with.
    pub ca_cert_path: Option<PathBuf>,
    /// Certificate of this node.
    pub cert_path: Option<PathBuf>,
    /// Private key to the certificate of this node.
    pub key_path: Option<PathBuf>,
    /// Run without TLS, with a warning, when the files cannot be used. Otherwise the node does
    /// not start.
    pub allow_insecure: bool,
}

impl Clone for TlsConfig {
    fn clone(&self) -> (r: Self)
        ensures
            r == *self,
    {
        TlsConfig {
            enabled: self.enabled,
            ca_cert_path: self.ca_cert_path.clone(),
            cert_path: self.cert_path.clone(),
            key_path: self.key_path.clone(),
            allow_insecure: self.allow_insecure,
        }
    }
}

/// No TLS.
pub open spec fn no_tls() -> TlsConfig {
    TlsConfig {
        enabled: false,
        ca_cert_path: None,
        cert_path: None,
        key_path: None,
        allow_insecure: false,
    }
}

impl Default for TlsConfig {
    fn default() -> (r: Self)
        ensures
            r == no_tls(),
    {
        TlsConfig {
            enabled: false,
            ca_cert_path: None,
            cert_path: None,
            key_path: None,
            allow_insecure: false,
        }
    }
}

impl TlsConfig {
    /// Tells whether TLS is enabled and all its files are named.
    pub fn is_complete(&self) -> (r: bool)
        ensures
            r == (self.enabled && self.ca_cert_path is Some && self.cert_path is Some
                && self.key_path is Some),
    {
        self.enabled && self.ca_cert_path.is_some() && self.cert_path.is_some()
            && self.key_path.is_some()
    }
}

/// Another node of the cluster.
#[derive(Debug)]
pub struct PeerConfig {
    pub node_id: u64,
    /// Host and port; the host is a name or an IP address.
    pub addr: String,
}

impl Clone for PeerConfig {
    fn clone(&self) -> (r: Self)
        ensures
            r == *self,
    {
        PeerConfig { node_id: self.node_id, addr: self.addr.clone() }
    }
}

/// Settings of a node.
#[derive(Debug)]
pub struct NodeConfig {
    pub node_id: u64,
    /// Address and port to listen on.
    pub listen_addr: String,
    /// Address and port under which the others reach this node.
    pub advertise_addr: String,
    pub peers: Vec<PeerConfig>,
    pub election_timeout_min_ms: u64,
    pub election_timeout_max_ms: u64,
    pub heartbeat_interval_ms: u64,
    pub sandbox: SandboxConfig,
    pub tls: TlsConfig,
    /// Where state is kept; in memory only when absent.
    pub data_dir: Option<PathBuf>,
}

impl Clone for NodeConfig {
    fn clone(&self) -> (r: Self)
        ensures
            r.peers@ == self.peers@,
            r == (NodeConfig { peers: r.peers, ..*self }),
    {
        let peers = self.peers.clone();
        proof {
            assert forall|i: int| 0 <= i < peers@.len() implies #[trigger] peers@[i]
                == self.peers@[i] by {
                assert(cloned::<PeerConfig>(self.peers@[i], peers@[i]));
            }
            assert(peers@ =~= self.peers@);
        }
        NodeConfig {
            node_id: self.node_id,
            listen_addr: self.listen_addr.clone(),
            advertise_addr: self.advertise_addr.clone(),
            peers,
            election_timeout_min_ms: self.election_timeout_min_ms,
            election_timeout_max_ms: self.election_timeout_max_ms,
            heartbeat_interval_ms: self.heartbeat_interval_ms,
            sandbox: self.sandbox.clone(),
            tls: self.tls.clone(),
            data_dir: self.data_dir.clone(),
        }
    }
}

/// The settings that hold unless told otherwise, for a node at `addr`.
pub open spec fn default_node(c: NodeConfig, node_id: u64, addr: Seq<char>) -> bool {
    &&& c.node_id == node_id
    &&& c.listen_addr@ == addr
    &&& c.advertise_addr@ == addr
    &&& c.peers@.len() == 0
    &&& c.election_timeout_min_ms == 150
    &&& c.election_timeout_max_ms == 300
    &&& c.heartbeat_interval_ms == 50
    &&& default_sandbox(c.sandbox)
    &&& c.tls == no_tls()
    &&& c.data_dir is None
}

impl Default for NodeConfig {
    fn default() -> (r: Self)
        ensures
            default_node(r, 1, "127.0.0.1:50051"@),
    {
        NodeConfig::new(1, "127.0.0.1:50051".to_owned())
    }
}

impl NodeConfig {
    /// The identifiers of the peers.
    pub open spec fn peer_ids(self) -> Seq<u64> {
        self.peers@.map_values(|p: PeerConfig| p.node_id)
    }

    /// Settings for a node that listens on `listen_addr` and has no peers yet.
    pub fn new(node_id: u64, listen_addr: String) -> (r: Self)
        ensures
            default_node(r, node_id, listen_addr@),
    {
        let advertise_addr = listen_addr.clone();
        NodeConfig {
            node_id,
            listen_addr,
            advertise_addr,
            peers: Vec::new(),
            election_timeout_min_ms: 150,
            election_timeout_max_ms: 300,
            heartbeat_interval_ms: 50,
            sandbox: SandboxConfig::default(),
            tls: TlsConfig::default(),
            data_dir: None,
        }
    }

    /// The same settings with one more peer.
    pub fn with_peer(self, node_id: u64, addr: String) -> (r: Self)
        ensures
            r.peers@ == self.peers@.push(PeerConfig { node_id, addr }),
            r == (NodeConfig { peers: r.peers, ..self }),
    {
        let mut config = self;
        config.peers.push(PeerConfig { node_id, addr });
        config
    }

    /// The identifiers of the peers.
    pub fn get_peer_ids(&self) -> (r: Vec<u64>)
        ensures
            r@ == self.peer_ids(),
    {
        let mut ids: Vec<u64> = Vec::new();
        for i in 0..self.peers.len()
            invariant
                ids@ =~= self.peer_ids().take(i as int),
        {
            ids.push(self.peers[i].node_id);
        }
        assert(self.peer_ids().take(self.peers@.len() as int) =~= self.peer_ids());
        ids
    }

    /// Tells whether a node is a peer.
    pub fn is_peer(&self, node_id: u64) -> (r: bool)
        ensures
            r == self.peer_ids().contains(node_id),
    {
        for i in 0..self.peers.len()
            invariant
                forall|k: int| 0 <= k < i ==> (#[trigger] self.peers@[k]).node_id != node_id,
        {
            if self.peers[i].node_id == node_id {
                assert(self.peer_ids()[i as int] == node_id);
                return true;
            }
        }
        false
    }
}

} // verus!
