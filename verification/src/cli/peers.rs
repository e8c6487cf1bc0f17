use crate::config::PeerConfig;
use crate::text;
use crate::text::{parse_number, split_text, trim};
use vstd::prelude::*;
use vstd::string::*;

verus! {

/// A peer as the model sees it: its identifier and its address.
pub type PeerView = (u64, Seq<char>);

/// What the settings of peers say.
pub open spec fn peer_views(peers: Seq<PeerConfig>) -> Seq<PeerView> {
    peers.map_values(|p: PeerConfig| (p.node_id, p.addr@))
}

/// The peer that a text of the form `id:host:port` stands for. White space around it does not
/// matter.
pub open spec fn peer_of(part: Seq<char>) -> Option<PeerView> {
    let fields = text::split(text::trimmed(part), ':');
    if fields.len() == 3 {
        match text::parsed_number(fields[0], u64::MAX as nat) {
            Some(id) => Some((id as u64, fields[1] + ":"@ + fields[2])),
            None => None,
        }
    } else {
        None
    }
}

/// The peers that texts stand for; those that stand for none are left out.
pub open spec fn peers_of(parts: Seq<Seq<char>>) -> Seq<PeerView>
    decreases parts.len(),
{
    if parts.len() == 0 {
        Seq::empty()
    } else {
        match peer_of(parts.last()) {
            Some(peer) => peers_of(parts.drop_last()).push(peer),
            None => peers_of(parts.drop_last()),
        }
    }
}

/// Reads one peer.
fn parse_peer(part: &str) -> (r: Option<PeerConfig>)
    ensures
        r is Some <==> peer_of(part@) is Some,
        r matches Some(peer) ==> peer_of(part@) == Some((peer.node_id, peer.addr@)),
{
    let fields = split_text(trim(part), ':');
    let ghost views = text::split(text::trimmed(part@), ':');
    assert(text::str_texts(fields@) == views);
    assert(views.len() == fields@.len());
    if fields.len() != 3 {
        return None;
    }
    assert(views[0] == fields@[0]@ && views[1] == fields@[1]@ && views[2] == fields@[2]@);
    match parse_number(fields[0], u64::MAX) {
        Some(node_id) => Some(
            PeerConfig { node_id, addr: fields[1].to_owned().concat(":").concat(fields[2]) },
        ),
        None => None,
    }
}

/// Reads a list of peers, separated by commas. What is no peer is passed over.
pub fn parse_peers(peers_str: &str) -> (r: Vec<PeerConfig>)
    ensures
        peer_views(r@) == peers_of(text::split(peers_str@, ',')),
{
    let parts = split_text(peers_str, ',');
    let ghost views = text::split(peers_str@, ',');
    let mut peers: Vec<PeerConfig> = Vec::new();
    for i in 0..parts.len()
        invariant
            views == text::str_texts(parts@),
            peer_views(peers@) =~= peers_of(views.take(i as int)),
    {
        assert(views.take(i + 1).drop_last() =~= views.take(i as int));
        assert(views.take(i + 1).last() == parts@[i as int]@);
        let ghost before = peers@;
        match parse_peer(parts[i]) {
            Some(peer) => {
                peers.push(peer);
                assert(peer_views(peers@) =~= peer_views(before).push((peer.node_id, peer.addr@)));
            },
            None => {},
        }
    }
    assert(views.take(views.len() as int) =~= views);
    peers
}

/// Without a list there are no peers.
pub proof fn no_peers()
    ensures
        peers_of(text::split(Seq::empty(), ',')) == Seq::<PeerView>::empty(),
{
    let parts = text::split(Seq::<char>::empty(), ',');
    assert(text::trimmed(parts[0]) =~= Seq::<char>::empty());
    assert(text::split(text::trimmed(parts[0]), ':').len() == 1);
    assert(peer_of(parts.last()) is None);
    assert(parts.drop_last() =~= Seq::<Seq<char>>::empty());
    assert(peers_of(parts.drop_last()) == Seq::<PeerView>::empty());
}

} // verus!
