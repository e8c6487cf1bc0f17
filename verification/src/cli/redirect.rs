use crate::proto::client;
use crate::proto::client::NodeMessage;
use crate::proto::GetClusterStatusResponse;
use crate::text;
use crate::text::{contains_text, strip_prefix};
use vstd::prelude::*;
use vstd::string::*;

verus! {

/// The address of the leader that an error message holds, where it has the form
/// `Not the leader. Try <addr>`.
pub fn leader_addr_from_error(msg: &str) -> (r: Option<&str>)
    ensures
        r is Some <==> text::after_prefix(msg@, "Not the leader. Try "@) is Some,
        r matches Some(addr) ==> text::after_prefix(msg@, "Not the leader. Try "@) == Some(addr@),
{
    strip_prefix(msg, "Not the leader. Try ")
}

/// The address starts like one that is reached over TLS.
pub open spec fn is_https(addr: Seq<char>) -> bool {
    text::stands_at(addr, "https://"@, 0)
}

/// The URL of the leader: its address under the scheme by which the client reached its node.
pub open spec fn url_of_leader(client_addr: Seq<char>, addr: Seq<char>) -> Seq<char> {
    (if is_https(client_addr) {
        "https://"@
    } else {
        "http://"@
    }) + addr
}

/// Tells whether the address starts like one that is reached over TLS.
fn starts_with_https(addr: &str) -> (r: bool)
    ensures
        r == is_https(addr@),
{
    strip_prefix(addr, "https://").is_some()
}

/// Tells whether a node is reached over TLS: a CA certificate is given, or the address says so.
pub fn uses_tls(addr: &str, has_ca_cert: bool) -> (r: bool)
    ensures
        r == (has_ca_cert || is_https(addr@)),
{
    has_ca_cert || starts_with_https(addr)
}

/// The URL of the leader: its address under the scheme by which the client reached its node.
pub fn leader_url(client_addr: &str, addr: &str) -> (r: String)
    ensures
        r@ == url_of_leader(client_addr@, addr@),
{
    if starts_with_https(client_addr) {
        "https://".to_owned().concat(addr)
    } else {
        "http://".to_owned().concat(addr)
    }
}

/// What a client does about a refused request.
#[derive(Debug)]
pub enum Redirect {
    /// It was not refused for want of a leader: give up.
    No,
    /// Send it to this URL.
    To(String),
    /// Ask for the state of the cluster to learn who leads.
    AskCluster,
}

/// What a client does about a request refused with this message.
pub fn redirect(msg: &str, client_addr: &str) -> (r: Redirect)
    ensures
        if !text::occurs_in(msg@, "Not the leader"@) {
            r is No
        } else {
            match text::after_prefix(msg@, "Not the leader. Try "@) {
                Some(addr) => r matches Redirect::To(url) && url@ == url_of_leader(
                    client_addr@,
                    addr,
                ),
                None => r is AskCluster,
            }
        },
{
    if !contains_text(msg, "Not the leader") {
        return Redirect::No;
    }
    match leader_addr_from_error(msg) {
        Some(addr) => Redirect::To(leader_url(client_addr, addr)),
        None => Redirect::AskCluster,
    }
}

/// The address of the first node with this identifier.
pub open spec fn first_addr(nodes: Seq<NodeMessage>, id: u64) -> Option<Seq<char>>
    decreases nodes.len(),
{
    if nodes.len() == 0 {
        None
    } else if nodes[0].node_id == id {
        Some(nodes[0].address)
    } else {
        first_addr(nodes.skip(1), id)
    }
}

/// The address of the leader in the state of the cluster.
pub fn find_leader_addr(status: &GetClusterStatusResponse) -> (r: Option<String>)
    ensures
        text::opt_text(r) == first_addr(client::node_messages(status.nodes@), status.leader_id),
{
    let ghost all = client::node_messages(status.nodes@);
    assert(all.skip(0) =~= all);
    for i in 0..status.nodes.len()
        invariant
            all == client::node_messages(status.nodes@),
            first_addr(all.skip(i as int), status.leader_id) == first_addr(all, status.leader_id),
    {
        assert(all.skip(i as int)[0] == status.nodes@[i as int]@);
        assert(all.skip(i as int).skip(1) =~= all.skip(i + 1));
        if status.nodes[i].node_id == status.leader_id {
            return Some(status.nodes[i].address.clone());
        }
    }
    None
}

/// The URL of the leader that the state of the cluster names.
pub fn redirect_by_cluster(status: &GetClusterStatusResponse, client_addr: &str) -> (r: Option<
    String,
>)
    ensures
        text::opt_text(r) == (match first_addr(
            client::node_messages(status.nodes@),
            status.leader_id,
        ) {
            Some(addr) => Some(url_of_leader(client_addr@, addr)),
            None => None,
        }),
{
    match find_leader_addr(status) {
        Some(addr) => Some(leader_url(client_addr, addr.as_str())),
        None => None,
    }
}

} // verus!
