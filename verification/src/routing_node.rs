//! The routing node: what it owns, how it is brought up, and how it hands its personas to
//! the membrane.

use crate::caches::{filter_entries, filter_window_ms, put, replay_filter};
use crate::connection_cache::{fresh_part, lists_stale, name_views, ConnectionCache};
use crate::connection_index::{agreeing, joined, parted, ConnectionIndex};
use crate::crypto::CryptoContext;
use crate::error::RoutingError;
use crate::expiry::{fresh, FILTER_WINDOW_MS, PUBLIC_ID_WINDOW_MS};
use crate::node_interface::{CreatePersonas, Interface};
use crate::public_id_cache::{distinct_names, found, looked_up, PublicIdCache};
use crate::random::random_u32;
use crate::relay::RelayMap;
use crate::routing_membrane::RoutingMembrane;
use crate::routing_table::{RoutingTable, ROUTING_TABLE_CAPACITY};
use crate::types::{
    full_keys, named_by_keys, Endpoint, FilterType, Id, IdView, MessageId, NameType, PublicId,
    PublicPmidView,
};
use message_filter::MessageFilter;
use vstd::prelude::*;

verus! {

/// The port on which a node listens for the beacons by which peers find each other.
pub const BEACON_PORT: u16 = 5483;

/// The number of public identities that a node caches at most.
pub const PUBLIC_ID_CACHE_CAPACITY: usize = 1000;

/// Drops a result whose outcome the caller has decided not to act on.
pub fn ignore<R, E>(_result: Result<R, E>) {
}

/// Where a node stands in its life.
#[derive(Clone, Copy, Debug, PartialEq, Eq, Structural)]
pub enum NodeState {
    /// The node is built and does not listen: its transport did not start.
    Constructed,
    /// The node is built and its transport listens.
    Listening,
    /// The node has handed its personas to the membrane.
    MembraneSpawned,
}

/// What a node stands for, but for its factory and its replay filter.
pub struct RoutingNodeView {
    pub state: NodeState,
    pub id: IdView,
    pub own_name: Seq<u8>,
    /// The peer behind each connected endpoint.
    pub peers: Map<Endpoint, Seq<u8>>,
    /// The endpoints of each connected peer, in the order in which they connected.
    pub endpoints: Map<Seq<u8>, Seq<Endpoint>>,
    pub routing_table: Map<Seq<u8>, Seq<Endpoint>>,
    pub relay_map: Map<Seq<u8>, Seq<Endpoint>>,
    pub accepting_on: Seq<Endpoint>,
    pub next_message_id: MessageId,
    pub bootstrap_endpoint: Option<Endpoint>,
    pub bootstrap_node_id: Option<Seq<u8>>,
    /// When each peer was last seen alive.
    pub last_seen: Map<Seq<u8>, u64>,
    /// The public identities that the node has cached, each with the name it is held
    /// under and the time at which it was recorded, the least recently used first.
    pub public_ids: Seq<(Seq<u8>, (PublicPmidView, u64))>,
}

/// What the name of an optional identifier stands for.
pub open spec fn optional_name(name: Option<NameType>) -> Option<Seq<u8>> {
    match name {
        Some(name) => Some(name@),
        None => None,
    }
}

/// The endpoints that a node accepts on once its transport has answered: those that the
/// transport gave, or none where it failed.
pub open spec fn accepted(listening: Result<Vec<Endpoint>, RoutingError>) -> Seq<Endpoint> {
    match listening {
        Ok(endpoints) => endpoints@,
        Err(_) => Seq::empty(),
    }
}

/// A node of the distributed hash table.
pub struct RoutingNode<G> {
    genesis: Box<G>,
    id: Id,
    own_name: NameType,
    all_connections: ConnectionIndex,
    routing_table: RoutingTable,
    relay_map: RelayMap,
    accepting_on: Vec<Endpoint>,
    next_message_id: MessageId,
    bootstrap_endpoint: Option<Endpoint>,
    bootstrap_node_id: Option<NameType>,
    filter: MessageFilter<FilterType>,
    public_id_cache: PublicIdCache,
    connection_cache: ConnectionCache,
    state: NodeState,
}

impl<G> View for RoutingNode<G> {
    type V = RoutingNodeView;

    closed spec fn view(&self) -> RoutingNodeView {
        RoutingNodeView {
            state: self.state,
            id: self.id@,
            own_name: self.own_name@,
            peers: self.all_connections.peers(),
            endpoints: self.all_connections.endpoints(),
            routing_table: self.routing_table@,
            relay_map: self.relay_map@,
            accepting_on: self.accepting_on@,
            next_message_id: self.next_message_id,
            bootstrap_endpoint: self.bootstrap_endpoint,
            bootstrap_node_id: optional_name(self.bootstrap_node_id),
            last_seen: self.connection_cache@,
            public_ids: self.public_id_cache@,
        }
    }
}

/// What holds of a node at all times: it is named by its identity, the two sides of its
/// connection index agree, its routing table is bounded, neither the table nor the relay
/// map holds the node itself, no peer is both routed and relayed, and the cache of public
/// identities is within its capacity and holds no name twice.
pub open spec fn sound(node: RoutingNodeView) -> bool {
    &&& node.own_name == node.id.name
    &&& agreeing(node.peers, node.endpoints)
    &&& node.routing_table.dom().finite()
    &&& node.routing_table.len() <= ROUTING_TABLE_CAPACITY
    &&& !node.routing_table.contains_key(node.own_name)
    &&& !node.relay_map.contains_key(node.own_name)
    &&& forall|n: Seq<u8>| !(node.routing_table.contains_key(n) && node.relay_map.contains_key(n))
    &&& node.public_ids.len() <= PUBLIC_ID_CACHE_CAPACITY
    &&& distinct_names(node.public_ids)
}

impl<G> RoutingNode<G> {
    /// Every part of the node is in order, and the parts fit together.
    pub closed spec fn wf(&self) -> bool {
        &&& self.all_connections.wf()
        &&& self.routing_table.wf()
        &&& self.relay_map.wf()
        &&& self.connection_cache.wf()
        &&& self.routing_table.our_name() == self.own_name@
        &&& self.relay_map.our_name() == self.own_name@
        &&& self.public_id_cache.wf()
        &&& self.public_id_cache.capacity() == PUBLIC_ID_CACHE_CAPACITY
        &&& self.public_id_cache.window() == PUBLIC_ID_WINDOW_MS
        &&& sound(self@)
    }

    /// The factory that makes the node's personas.
    pub closed spec fn factory(&self) -> G {
        *self.genesis
    }

    /// The filter of the messages that the node has seen of late.
    pub closed spec fn replay_filter(&self) -> MessageFilter<FilterType> {
        self.filter
    }

    /// The node holds the factory and the filter that `before` held.
    pub open spec fn holds_what(&self, before: RoutingNode<G>) -> bool {
        &&& self.factory() == before.factory()
        &&& self.replay_filter() == before.replay_filter()
    }

    /// The filter of the messages that the node has seen of late, to consult and to fill.
    /// Nothing else of the node changes through it.
    pub fn filter_mut(&mut self) -> (filter: &mut MessageFilter<FilterType>)
        ensures
            *filter == old(self).replay_filter(),
            *final(filter) == final(self).replay_filter(),
            final(self)@ == old(self)@,
            final(self).factory() == old(self).factory(),
            final(self).wf() == old(self).wf(),
    {
        &mut self.filter
    }

    /// Whatever has happened to a node, it is sound.
    pub proof fn law_sound(&self)
        requires
            self.wf(),
        ensures
            sound(self@),
    {
    }

    /// Builds a node once its transport has answered the request to listen.
    ///
    /// The node gets a fresh identity and is named by it. Where the transport listens, the
    /// node accepts on the endpoints that the transport gave and is `Listening`. Where the
    /// transport failed, the node is built all the same: it accepts on no endpoint and is
    /// `Constructed`. The node starts without connections, without peers in its routing
    /// table and relay map, and with empty caches; its first message id is random.
    pub fn new(
        genesis: G,
        crypto: &CryptoContext,
        listening: Result<Vec<Endpoint>, RoutingError>,
    ) -> (node: RoutingNode<G>)
        ensures
            node.wf(),
            sound(node@),
            node.factory() == genesis,
            full_keys(node@.id),
            named_by_keys(node@.id),
            node@.state == if listening is Ok {
                NodeState::Listening
            } else {
                NodeState::Constructed
            },
            node@.accepting_on == accepted(listening),
            node@.peers == Map::<Endpoint, Seq<u8>>::empty(),
            node@.endpoints == Map::<Seq<u8>, Seq<Endpoint>>::empty(),
            node@.routing_table == Map::<Seq<u8>, Seq<Endpoint>>::empty(),
            node@.relay_map == Map::<Seq<u8>, Seq<Endpoint>>::empty(),
            node@.last_seen == Map::<Seq<u8>, u64>::empty(),
            node@.bootstrap_endpoint == None::<Endpoint>,
            node@.bootstrap_node_id == None::<Seq<u8>>,
            filter_entries(node.replay_filter()) == Seq::<u64>::empty(),
            filter_window_ms(node.replay_filter()) == FILTER_WINDOW_MS,
            node@.public_ids == Seq::<(Seq<u8>, (PublicPmidView, u64))>::empty(),
    {
        let id = Id::new(crypto);
        let own_name = id.get_name();
        let (accepting_on, state) = match listening {
            Ok(endpoints) => (endpoints, NodeState::Listening),
            Err(_) => (Vec::new(), NodeState::Constructed),
        };
        let routing_table = RoutingTable::new(&own_name);
        let relay_map = RelayMap::new(&own_name);
        let public_id_cache = PublicIdCache::new(
            PUBLIC_ID_WINDOW_MS,
            PUBLIC_ID_CACHE_CAPACITY,
        ).unwrap();
        proof {
            routing_table.lemma_bounded();
        }
        RoutingNode {
            genesis: Box::new(genesis),
            id,
            own_name,
            all_connections: ConnectionIndex::new(),
            routing_table,
            relay_map,
            accepting_on,
            next_message_id: random_u32(),
            bootstrap_endpoint: None,
            bootstrap_node_id: None,
            filter: replay_filter(FILTER_WINDOW_MS),
            public_id_cache,
            connection_cache: ConnectionCache::new(),
            state,
        }
    }

    /// Hands the personas over to the membrane.
    ///
    /// The node has its factory make a fresh set of personas and packs them, with a copy of
    /// its identity, into a membrane that the caller is to run on a thread of its own. The
    /// membrane owns what it holds: the node keeps neither the personas nor anything that
    /// leads to them. This happens at most once in the life of a node: a node that has
    /// handed over answers `None`, asks nothing of its factory and stays as it is.
    pub fn run_membrane<T: Interface>(&mut self) -> (r: Option<RoutingMembrane<T>>) where
        G: CreatePersonas<T>,

        requires
            old(self).wf(),
        ensures
            final(self).wf(),
            final(self).replay_filter() == old(self).replay_filter(),
            r is None ==> final(self).factory() == old(self).factory(),
            match r {
                Some(membrane) => old(self)@.state != NodeState::MembraneSpawned && final(self)@
                    == (RoutingNodeView { state: NodeState::MembraneSpawned, ..old(self)@ })
                    && membrane.id() == old(self)@.id,
                None => old(self)@.state == NodeState::MembraneSpawned && final(self)@ == old(
                    self,
                )@,
            },
    {
        if self.state == NodeState::MembraneSpawned {
            return None;
        }
        let personas = self.genesis.create_personas();
        let membrane = RoutingMembrane::new(personas, self.id.clone());
        self.state = NodeState::MembraneSpawned;
        Some(membrane)
    }

    /// Where the node stands in its life.
    pub fn state(&self) -> (r: NodeState)
        ensures
            r == self@.state,
    {
        self.state
    }

    /// The identity of the node.
    pub fn id(&self) -> (r: &Id)
        ensures
            r@ == self@.id,
    {
        &self.id
    }

    /// The name of the node.
    pub fn own_name(&self) -> (r: &NameType)
        ensures
            r@ == self@.own_name,
    {
        &self.own_name
    }

    /// The endpoints on which the node accepts connections.
    pub fn accepting_on(&self) -> (r: &Vec<Endpoint>)
        ensures
            r@ == self@.accepting_on,
    {
        &self.accepting_on
    }

    /// The message id that the next request is to carry.
    pub fn next_message_id(&self) -> (r: MessageId)
        ensures
            r == self@.next_message_id,
    {
        self.next_message_id
    }

    /// Hands out the message id for a request and moves on to the next one, which is one
    /// more, or zero behind the largest.
    pub fn get_next_message_id(&mut self) -> (r: MessageId)
        ensures
            r == old(self)@.next_message_id,
            final(self)@ == (RoutingNodeView {
                next_message_id: if r == u32::MAX {
                    0u32
                } else {
                    (r + 1) as u32
                },
                ..old(self)@
            }),
            final(self).wf() == old(self).wf(),
            final(self).holds_what(*old(self)),
    {
        let current = self.next_message_id;
        self.next_message_id = if current == u32::MAX {
            0
        } else {
            current + 1
        };
        current
    }

    /// The endpoint and the name of the peer through which the node found the network.
    pub fn bootstrap(&self) -> (r: (Option<Endpoint>, Option<&NameType>))
        ensures
            r.0 == self@.bootstrap_endpoint,
            match r.1 {
                Some(name) => self@.bootstrap_node_id == Some(name@),
                None => self@.bootstrap_node_id is None,
            },
    {
        (self.bootstrap_endpoint, self.bootstrap_node_id.as_ref())
    }

    /// Records the endpoint and the name of the peer through which the node found the
    /// network.
    pub fn set_bootstrap(&mut self, endpoint: Option<Endpoint>, name: Option<NameType>)
        ensures
            final(self)@ == (RoutingNodeView {
                bootstrap_endpoint: endpoint,
                bootstrap_node_id: optional_name(name),
                ..old(self)@
            }),
            final(self).wf() == old(self).wf(),
            final(self).holds_what(*old(self)),
    {
        self.bootstrap_endpoint = endpoint;
        self.bootstrap_node_id = name;
    }

    /// The peer behind the connected endpoint `endpoint`.
    pub fn peer_of(&self, endpoint: &Endpoint) -> (r: Option<&NameType>)
        requires
            self.wf(),
        ensures
            match r {
                Some(name) => self@.peers.contains_key(*endpoint) && name@
                    == self@.peers[*endpoint],
                None => !self@.peers.contains_key(*endpoint),
            },
    {
        self.all_connections.peer_of(endpoint)
    }

    /// The endpoints of the connected peer `name`, in the order in which they connected;
    /// none where the peer is not connected.
    pub fn endpoints_of(&self, name: &NameType) -> (r: Vec<Endpoint>)
        requires
            self.wf(),
        ensures
            r@ == if self@.endpoints.contains_key(name@) {
                self@.endpoints[name@]
            } else {
                Seq::<Endpoint>::empty()
            },
    {
        self.all_connections.endpoints_of(name)
    }

    /// Takes note that `endpoint` has connected at `now` and leads to the peer `name`.
    ///
    /// Both sides of the connection index are brought up to date in one step, and the peer
    /// counts as seen alive at `now`. An endpoint leads to one peer only: where it is
    /// connected already, nothing changes and the answer is `false`.
    pub fn handle_connect(&mut self, endpoint: Endpoint, name: NameType, now: u64) -> (accepted:
        bool)
        requires
            old(self).wf(),
        ensures
            final(self).wf(),
            sound(final(self)@),
            final(self).holds_what(*old(self)),
            accepted == !old(self)@.peers.contains_key(endpoint),
            final(self)@ == if accepted {
                RoutingNodeView {
                    peers: old(self)@.peers.insert(endpoint, name@),
                    endpoints: old(self)@.endpoints.insert(
                        name@,
                        joined(old(self)@.endpoints, name@, endpoint),
                    ),
                    last_seen: old(self)@.last_seen.insert(name@, now),
                    ..old(self)@
                }
            } else {
                old(self)@
            },
    {
        let seen = name.clone();
        if self.all_connections.connect(endpoint, name) {
            self.connection_cache.touch(seen, now);
            true
        } else {
            false
        }
    }

    /// Takes note that the connection at `endpoint` is lost, and hands back the name of the
    /// peer it led to.
    ///
    /// Both sides of the connection index are brought up to date in one step. A peer that
    /// has no endpoint left is dropped from the index; when it was last seen alive stays
    /// on record until it expires.
    pub fn handle_lost_connection(&mut self, endpoint: &Endpoint) -> (r: Option<NameType>)
        requires
            old(self).wf(),
        ensures
            final(self).wf(),
            sound(final(self)@),
            final(self).holds_what(*old(self)),
            match r {
                Some(name) => old(self)@.peers.contains_key(*endpoint) && name@ == old(
                    self,
                )@.peers[*endpoint] && final(self)@ == (RoutingNodeView {
                    peers: old(self)@.peers.remove(*endpoint),
                    endpoints: parted(old(self)@.endpoints, name@, *endpoint),
                    ..old(self)@
                }),
                None => !old(self)@.peers.contains_key(*endpoint) && final(self)@ == old(self)@,
            },
    {
        self.all_connections.disconnect(endpoint)
    }

    /// Tells whether the peer `name` counts as alive at `now`: whether it was seen less
    /// than `window` ago.
    pub fn is_alive(&self, name: &NameType, now: u64, window: u64) -> (r: bool)
        requires
            self.wf(),
        ensures
            r == (self@.last_seen.contains_key(name@) && fresh(
                self@.last_seen[name@],
                now,
                window,
            )),
    {
        self.connection_cache.is_alive(name, now, window)
    }

    /// Forgets when the peers were seen that are stale at `now`, and hands back their
    /// names in ascending order.
    pub fn prune_stale(&mut self, now: u64, window: u64) -> (stale: Vec<NameType>)
        requires
            old(self).wf(),
        ensures
            final(self).wf(),
            final(self).holds_what(*old(self)),
            final(self)@ == (RoutingNodeView {
                last_seen: fresh_part(old(self)@.last_seen, now, window),
                ..old(self)@
            }),
            lists_stale(name_views(stale@), old(self)@.last_seen, now, window),
    {
        self.connection_cache.sweep(now, window)
    }

    /// Caches `id` as the public identity of the peer `name`, recorded at `now`.
    ///
    /// The entry is then the most recently used one. Where the name is new and the cache
    /// holds `PUBLIC_ID_CACHE_CAPACITY` entries, the least recently used entry makes room,
    /// whether or not it has expired.
    pub fn cache_public_id(&mut self, name: NameType, id: PublicId, now: u64)
        requires
            old(self).wf(),
        ensures
            final(self).wf(),
            sound(final(self)@),
            final(self).holds_what(*old(self)),
            final(self)@ == (RoutingNodeView {
                public_ids: put(
                    old(self)@.public_ids,
                    PUBLIC_ID_CACHE_CAPACITY as int,
                    name@,
                    (id@, now),
                ),
                ..old(self)@
            }),
    {
        self.public_id_cache.insert(name, id, now)
    }

    /// Looks up the public identity of the peer `name` at `now`.
    ///
    /// An identity is found while less than `PUBLIC_ID_WINDOW_MS` have passed since it was
    /// recorded, and is then the most recently used entry. One that has expired counts as
    /// absent, and is dropped.
    pub fn public_id_of(&mut self, name: &NameType, now: u64) -> (r: Option<PublicId>)
        requires
            old(self).wf(),
        ensures
            final(self).wf(),
            sound(final(self)@),
            final(self).holds_what(*old(self)),
            match r {
                Some(id) => found(old(self)@.public_ids, name@, now, PUBLIC_ID_WINDOW_MS) == Some(
                    id@,
                ),
                None => found(old(self)@.public_ids, name@, now, PUBLIC_ID_WINDOW_MS) is None,
            },
            final(self)@ == (RoutingNodeView {
                public_ids: looked_up(old(self)@.public_ids, name@, now, PUBLIC_ID_WINDOW_MS),
                ..old(self)@
            }),
    {
        self.public_id_cache.get(name, now)
    }

    /// Starts to relay for the peer `name`, known at `endpoints`, and tells whether it did.
    /// The node does not relay for itself, for a peer that it relays for already, or for a
    /// peer in its routing table.
    pub fn add_relay(&mut self, name: NameType, endpoints: Vec<Endpoint>) -> (added: bool)
        requires
            old(self).wf(),
        ensures
            final(self).wf(),
            sound(final(self)@),
            final(self).holds_what(*old(self)),
            added == (name@ != old(self)@.own_name && !old(self)@.relay_map.contains_key(name@)
                && !old(self)@.routing_table.contains_key(name@)),
            final(self)@ == if added {
                RoutingNodeView {
                    relay_map: old(self)@.relay_map.insert(name@, endpoints@),
                    ..old(self)@
                }
            } else {
                old(self)@
            },
    {
        if self.routing_table.has_node(&name) {
            return false;
        }
        self.relay_map.add_client(name, endpoints)
    }

    /// Admits the peer `name`, known at `endpoints`, to the routing table, and tells whether
    /// it did. The table takes a peer that is not the node itself and not in the table
    /// while the table is not full; a peer that the node relays for gets in by `promote`
    /// only.
    pub fn add_to_routing_table(&mut self, name: NameType, endpoints: Vec<Endpoint>) -> (admitted:
        bool)
        requires
            old(self).wf(),
        ensures
            final(self).wf(),
            sound(final(self)@),
            final(self).holds_what(*old(self)),
            admitted == (admissible(old(self)@, name@) && !old(self)@.relay_map.contains_key(
                name@,
            )),
            final(self)@ == if admitted {
                RoutingNodeView {
                    routing_table: old(self)@.routing_table.insert(name@, endpoints@),
                    ..old(self)@
                }
            } else {
                old(self)@
            },
    {
        proof {
            self.routing_table.lemma_bounded();
        }
        if self.relay_map.contains_relay(&name) {
            return false;
        }
        let admitted = self.routing_table.add_node(name, endpoints);
        proof {
            self.routing_table.lemma_bounded();
        }
        admitted
    }

    /// Moves the peer `name` from the relay map into the routing table, and tells whether
    /// it did. The peer leaves the relay map only once the table has admitted it: where the
    /// table does not take it, the node goes on relaying for it.
    pub fn promote(&mut self, name: &NameType) -> (admitted: bool)
        requires
            old(self).wf(),
        ensures
            final(self).wf(),
            sound(final(self)@),
            final(self).holds_what(*old(self)),
            admitted == (old(self)@.relay_map.contains_key(name@) && admissible(
                old(self)@,
                name@,
            )),
            final(self)@ == if admitted {
                RoutingNodeView {
                    routing_table: old(self)@.routing_table.insert(
                        name@,
                        old(self)@.relay_map[name@],
                    ),
                    relay_map: old(self)@.relay_map.remove(name@),
                    ..old(self)@
                }
            } else {
                old(self)@
            },
    {
        proof {
            self.routing_table.lemma_bounded();
        }
        let endpoints = match self.relay_map.get_endpoints(name) {
            Some(endpoints) => endpoints,
            None => {
                return false;
            },
        };
        if !self.routing_table.add_node(name.clone(), endpoints) {
            return false;
        }
        self.relay_map.drop_client(name);
        proof {
            self.routing_table.lemma_bounded();
        }
        true
    }

    /// Drops the peer `name` from the routing table and from the relay map, and tells
    /// whether it was in either.
    pub fn drop_peer(&mut self, name: &NameType) -> (dropped: bool)
        requires
            old(self).wf(),
        ensures
            final(self).wf(),
            sound(final(self)@),
            final(self).holds_what(*old(self)),
            dropped == (old(self)@.routing_table.contains_key(name@) || old(
                self,
            )@.relay_map.contains_key(name@)),
            final(self)@ == (RoutingNodeView {
                routing_table: old(self)@.routing_table.remove(name@),
                relay_map: old(self)@.relay_map.remove(name@),
                ..old(self)@
            }),
    {
        proof {
            self.routing_table.lemma_bounded();
        }
        let routed = self.routing_table.drop_node(name);
        let relayed = self.relay_map.drop_client(name);
        proof {
            self.routing_table.lemma_bounded();
        }
        routed || relayed
    }

    /// Tells whether the peer `name` is in the routing table.
    pub fn is_routed(&self, name: &NameType) -> (r: bool)
        requires
            self.wf(),
        ensures
            r == self@.routing_table.contains_key(name@),
    {
        self.routing_table.has_node(name)
    }

    /// Tells whether the node relays for the peer `name`.
    pub fn is_relayed(&self, name: &NameType) -> (r: bool)
        requires
            self.wf(),
        ensures
            r == self@.relay_map.contains_key(name@),
    {
        self.relay_map.contains_relay(name)
    }
}

/// The routing table of `node` would take the peer `name`: it is not the node itself, it
/// is not in the table yet, and the table is not full.
pub open spec fn admissible(node: RoutingNodeView, name: Seq<u8>) -> bool {
    &&& name != node.own_name
    &&& !node.routing_table.contains_key(name)
    &&& node.routing_table.len() < ROUTING_TABLE_CAPACITY
}

} // verus!
