//! The event dispatch at the heart of the node: each network event maps to
//! exactly one peer-registry or model-index mutation, and the whole node
//! state is owned by one loop.

use vstd::prelude::*;

use crate::index::{ModelIndex, index_step};
use crate::registry::{PeerRegistry, RecData};

verus! {

/// The network events the core consumes, with timestamps and addresses
/// already reduced to plain values by the caller.
pub enum NetworkEvent {
    /// A peer was discovered with a usable address.
    Discovered { peer: String, ip: String, ts: u64 },
    /// The discovery protocol reported a peer expired.
    Expired { peer: String },
    /// Peer metadata arrived, with an address when one could be read.
    Identified { peer: String, addr: Option<String>, ts: u64 },
    /// A liveness response arrived; it carries no address.
    Pinged { peer: String, ts: u64 },
    /// The routing table learned of a peer, with an address when one could
    /// be read.
    RoutingUpdated { peer: String, addr: Option<String>, ts: u64 },
    /// A publish operation completed; only worth logging.
    PublishConfirmed { key: String },
    /// A lookup query returned one record.
    LookupResult { key: String, value: String },
}

/// The specification-level form of a network event.
pub enum EventView {
    Discovered { peer: Seq<char>, ip: Seq<char>, ts: u64 },
    Expired { peer: Seq<char> },
    Identified { peer: Seq<char>, addr: Option<Seq<char>>, ts: u64 },
    Pinged { peer: Seq<char>, ts: u64 },
    RoutingUpdated { peer: Seq<char>, addr: Option<Seq<char>>, ts: u64 },
    PublishConfirmed { key: Seq<char> },
    LookupResult { key: Seq<char>, value: Seq<char> },
}

impl View for NetworkEvent {
    type V = EventView;

    open spec fn view(&self) -> EventView {
        match self {
            NetworkEvent::Discovered { peer, ip, ts } => EventView::Discovered {
                peer: peer@,
                ip: ip@,
                ts: *ts,
            },
            NetworkEvent::Expired { peer } => EventView::Expired { peer: peer@ },
            NetworkEvent::Identified { peer, addr, ts } => EventView::Identified {
                peer: peer@,
                addr: match addr {
                    Some(s) => Some(s@),
                    None => None,
                },
                ts: *ts,
            },
            NetworkEvent::Pinged { peer, ts } => EventView::Pinged { peer: peer@, ts: *ts },
            NetworkEvent::RoutingUpdated { peer, addr, ts } => EventView::RoutingUpdated {
                peer: peer@,
                addr: match addr {
                    Some(s) => Some(s@),
                    None => None,
                },
                ts: *ts,
            },
            NetworkEvent::PublishConfirmed { key } => EventView::PublishConfirmed { key: key@ },
            NetworkEvent::LookupResult { key, value } => EventView::LookupResult {
                key: key@,
                value: value@,
            },
        }
    }
}

/// A liveness-only update: refresh `last_seen` of a known peer, leave an
/// unknown identity alone.
pub open spec fn touch_step(m: Map<Seq<char>, RecData>, id: Seq<char>, ts: u64) -> Map<
    Seq<char>,
    RecData,
> {
    if m.dom().contains(id) {
        m.insert(id, RecData { ip: m[id].ip, last_seen: ts })
    } else {
        m
    }
}

/// How one event changes the peer registry.
pub open spec fn registry_step(m: Map<Seq<char>, RecData>, e: EventView) -> Map<
    Seq<char>,
    RecData,
> {
    match e {
        EventView::Discovered { peer, ip, ts } => m.insert(peer, RecData { ip, last_seen: ts }),
        EventView::Expired { peer } => m.remove(peer),
        EventView::Identified { peer, addr: Some(ip), ts } => m.insert(
            peer,
            RecData { ip, last_seen: ts },
        ),
        EventView::Identified { peer, addr: None, ts } => touch_step(m, peer, ts),
        EventView::Pinged { peer, ts } => touch_step(m, peer, ts),
        EventView::RoutingUpdated { peer, addr: Some(ip), ts } => m.insert(
            peer,
            RecData { ip, last_seen: ts },
        ),
        EventView::RoutingUpdated { peer, addr: None, ts } => touch_step(m, peer, ts),
        EventView::PublishConfirmed { .. } => m,
        EventView::LookupResult { .. } => m,
    }
}

/// How one event changes the model index.
pub open spec fn index_step_of(m: Map<Seq<char>, Seq<Seq<char>>>, e: EventView) -> Map<
    Seq<char>,
    Seq<Seq<char>>,
> {
    match e {
        EventView::LookupResult { key, value } => index_step(m, key, value),
        _ => m,
    }
}

/// All mutable state of the node, owned exclusively by the event loop.
pub struct NodeState {
    pub registry: PeerRegistry,
    pub index: ModelIndex,
}

impl NodeState {
    pub open spec fn wf(self) -> bool {
        self.registry.wf() && self.index.wf()
    }

    /// A fresh node: empty registry, empty index.
    pub fn new() -> (r: NodeState)
        ensures
            r.wf(),
            r.registry.as_map() == Map::<Seq<char>, RecData>::empty(),
            r.index.as_map() == Map::<Seq<char>, Seq<Seq<char>>>::empty(),
    {
        NodeState { registry: PeerRegistry::new(), index: ModelIndex::new() }
    }

    /// Process exactly one event: the one registry or index mutation the
    /// event calls for, and nothing else.
    pub fn handle_event(&mut self, e: &NetworkEvent)
        requires
            old(self).wf(),
        ensures
            final(self).wf(),
            final(self).registry.as_map() == registry_step(old(self).registry.as_map(), e@),
            final(self).index.as_map() == index_step_of(old(self).index.as_map(), e@),
    {
        match e {
            NetworkEvent::Discovered { peer, ip, ts } => {
                self.registry.upsert(peer.as_str(), ip.as_str(), *ts);
            },
            NetworkEvent::Expired { peer } => {
                self.registry.remove(peer.as_str());
            },
            NetworkEvent::Identified { peer, addr, ts } => {
                match addr {
                    Some(ip) => self.registry.upsert(peer.as_str(), ip.as_str(), *ts),
                    None => self.registry.touch(peer.as_str(), *ts),
                }
            },
            NetworkEvent::Pinged { peer, ts } => {
                self.registry.touch(peer.as_str(), *ts);
            },
            NetworkEvent::RoutingUpdated { peer, addr, ts } => {
                match addr {
                    Some(ip) => self.registry.upsert(peer.as_str(), ip.as_str(), *ts),
                    None => self.registry.touch(peer.as_str(), *ts),
                }
            },
            NetworkEvent::PublishConfirmed { .. } => {},
            NetworkEvent::LookupResult { key, value } => {
                self.index.record_result(key.as_str(), value.as_str());
            },
        }
    }
}

/// The registry that results from replaying a sequence of events against an
/// empty node.
pub open spec fn replay(events: Seq<EventView>) -> Map<Seq<char>, RecData>
    decreases events.len(),
{
    if events.len() == 0 {
        Map::empty()
    } else {
        registry_step(replay(events.drop_last()), events.last())
    }
}

/// Whether a discovery or expiry event is about `id`.
pub open spec fn concerns(e: EventView, id: Seq<char>) -> bool {
    match e {
        EventView::Discovered { peer, .. } => peer == id,
        EventView::Expired { peer } => peer == id,
        _ => false,
    }
}

/// The most recent event about `id`, if any.
pub open spec fn last_touch(events: Seq<EventView>, id: Seq<char>) -> Option<EventView>
    decreases events.len(),
{
    if events.len() == 0 {
        None
    } else if concerns(events.last(), id) {
        Some(events.last())
    } else {
        last_touch(events.drop_last(), id)
    }
}

/// Whether a sequence consists of discovery and expiry events only.
pub open spec fn discovery_only(events: Seq<EventView>) -> bool {
    forall|i: int| 0 <= i < events.len() ==> ((#[trigger] events[i]) is Discovered || events[i]
        is Expired)
}

/// Replaying any sequence of discovery and expiry events leaves in the
/// registry exactly the peers whose most recent event is a discovery, each
/// carrying the address and timestamp of that event.
pub proof fn lemma_replay_discovery(events: Seq<EventView>)
    requires
        discovery_only(events),
    ensures
        forall|id: Seq<char>| #[trigger] replay(events).dom().contains(id) <==> (last_touch(
            events,
            id,
        ) matches Some(e) && e is Discovered),
        forall|id: Seq<char>| #[trigger] replay(events).dom().contains(id) ==> (last_touch(
            events,
            id,
        ) matches Some(EventView::Discovered { peer, ip, ts }) && peer == id && replay(events)[id]
            == RecData { ip, last_seen: ts }),
    decreases events.len(),
{
    if events.len() == 0 {
    } else {
        let prefix = events.drop_last();
        let last = events.last();
        assert(discovery_only(prefix)) by {
            assert(forall|i: int| 0 <= i < prefix.len() ==> prefix[i] == #[trigger] events[i]);
        }
        lemma_replay_discovery(prefix);
        assert forall|id: Seq<char>| #[trigger] replay(events).dom().contains(id) <==> (last_touch(
            events,
            id,
        ) matches Some(e) && e is Discovered) by {
            assert(replay(prefix).dom().contains(id) <==> (last_touch(prefix, id) matches Some(e)
                && e is Discovered));
        }
        assert forall|id: Seq<char>| #[trigger] replay(events).dom().contains(id) implies (
        last_touch(events, id) matches Some(EventView::Discovered { peer, ip, ts }) && peer == id
            && replay(events)[id] == RecData { ip, last_seen: ts }) by {
            if !concerns(last, id) {
                assert(replay(prefix).dom().contains(id));
            }
        }
    }
}

} // verus!
