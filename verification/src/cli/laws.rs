//! What holds between the command line and the services it talks to.

use crate::cli::jobs;
use crate::cli::jobs::ListView;
use crate::cli::redirect;
use crate::clock::Moment;
use crate::config::NodeConfig;
use crate::grpc::client_service;
use crate::grpc::laws;
use crate::proto::client::NodeMessage;
use crate::raft::node::RaftNode;
use crate::scheduler::job::JobView;
use crate::text;
use vstd::prelude::*;

verus! {

/// Whatever a node that is not the leader says, a client recognises it and asks who leads.
pub proof fn refusal_is_recognised(leader: Option<u64>)
    ensures
        text::occurs_in(client_service::not_leader_message(leader), "Not the leader"@),
        text::after_prefix(
            client_service::not_leader_message(leader),
            "Not the leader. Try "@,
        ) is None,
{
    let message = client_service::not_leader_message(leader);
    let known = "Not the leader"@;
    let tried = "Not the leader. Try "@;
    reveal_strlit("Not the leader");
    reveal_strlit("Not the leader. Try ");
    reveal_strlit("Not the leader. Redirect to node ");
    reveal_strlit("Not the leader. Leader unknown, retry later");
    assert(message.subrange(0, known.len() as int) =~= known);
    assert(text::stands_at(message, known, 0));
    if text::stands_at(message, tried, 0) {
        assert(message.subrange(0, tried.len() as int)[16] == message[16]);
        assert(tried[16] == 'T');
    }
}

/// The first node with an identifier is the first that passes a filter for it.
proof fn first_is_first_passing(nodes: Seq<NodeMessage>, id: u64)
    ensures
        redirect::first_addr(nodes, id) == (if nodes.filter(client_service::with_id(id)).len() > 0 {
            Some(nodes.filter(client_service::with_id(id))[0].address)
        } else {
            None
        }),
    decreases nodes.len(),
{
    let which = client_service::with_id(id);
    reveal(Seq::filter);
    if nodes.len() > 0 {
        let head = seq![nodes[0]];
        let rest = nodes.skip(1);
        assert(nodes =~= head + rest);
        Seq::filter_distributes_over_add(head, rest, which);
        assert(head.drop_last() =~= Seq::<NodeMessage>::empty());
        assert(head.drop_last().filter(which) =~= Seq::<NodeMessage>::empty());
        if which(nodes[0]) {
            assert(head.filter(which) =~= seq![nodes[0]]);
        } else {
            assert(head.filter(which) =~= Seq::<NodeMessage>::empty());
            assert(nodes.filter(which) =~= rest.filter(which));
            first_is_first_passing(rest, id);
        }
    }
}

/// A client that asks the leader for the state of the cluster is sent to the address that the
/// leader advertises.
pub proof fn cluster_status_names_the_leader(
    config: NodeConfig,
    raft: RaftNode,
    now: Moment,
    nodes: Seq<NodeMessage>,
)
    requires
        client_service::sorted_by_id(nodes, client_service::known_nodes(config, raft, now)),
    ensures
        redirect::first_addr(nodes, config.node_id) == Some(config.advertise_addr@),
{
    let all = client_service::known_nodes(config, raft, now);
    let id = config.node_id;
    let which = client_service::with_id(id);
    first_is_first_passing(nodes, id);
    first_is_first_passing(all, id);
    assert(nodes.filter(which) == all.filter(which));
    assert(all[0].node_id == id);
    assert(redirect::first_addr(all, id) == Some(all[0].address));
}

/// The list after reading the page with this token and the pages that follow it, over at most
/// `more` of them.
pub open spec fn collected(
    list: ListView,
    matching: Seq<JobView>,
    token: Seq<char>,
    size: nat,
    more: nat,
) -> ListView
    decreases more,
{
    match client_service::page_start(token) {
        None => list,
        Some(offset) => {
            let page = client_service::job_page(matching, offset, size);
            let after = jobs::with_page(list, page);
            if page.next_page_token.len() == 0 || more == 0 {
                after
            } else {
                collected(after, matching, page.next_page_token, size, (more - 1) as nat)
            }
        },
    }
}

/// The list holds what the pages held.
proof fn collects_pages(
    list: ListView,
    matching: Seq<JobView>,
    token: Seq<char>,
    size: nat,
    more: nat,
)
    ensures
        collected(list, matching, token, size, more).jobs == list.jobs + jobs::items_of(
            laws::read_pages(matching, token, size, more),
        ),
    decreases more,
{
    match client_service::page_start(token) {
        None => {
            assert(list.jobs + jobs::items_of(Seq::empty()) =~= list.jobs);
        },
        Some(offset) => {
            let page = client_service::job_page(matching, offset, size);
            let after = jobs::with_page(list, page);
            if page.next_page_token.len() > 0 && more > 0 {
                let next = page.next_page_token;
                let rest = laws::read_pages(matching, next, size, (more - 1) as nat);
                collects_pages(after, matching, next, size, (more - 1) as nat);
                assert(jobs::items_of(page.jobs + rest) =~= jobs::items_of(page.jobs)
                    + jobs::items_of(rest));
                assert(after.jobs + jobs::items_of(rest) =~= list.jobs + jobs::items_of(
                    page.jobs + rest,
                ));
            }
        },
    }
}

/// Fetching all pages lists every job that the node has for the filters, once and in order.
pub proof fn all_pages_list_every_job(
    first: ListView,
    all: Map<crate::ids::JobId, JobView>,
    filter: client_service::JobFilter,
    size: nat,
    more: nat,
)
    requires
        first.jobs.len() == 0,
        client_service::matching_jobs(all, filter).len() <= u32::MAX,
        size > 0,
        more >= client_service::matching_jobs(all, filter).len(),
    ensures
        collected(
            first,
            client_service::matching_jobs(all, filter),
            Seq::empty(),
            size,
            more,
        ).jobs == jobs::items_of(
            client_service::infos_of(client_service::matching_jobs(all, filter)),
        ),
{
    let matching = client_service::matching_jobs(all, filter);
    collects_pages(first, matching, Seq::empty(), size, more);
    laws::pages_show_every_job(all, filter, size, more);
    assert(first.jobs + jobs::items_of(client_service::infos_of(matching)) =~= jobs::items_of(
        client_service::infos_of(matching),
    ));
}

} // verus!
