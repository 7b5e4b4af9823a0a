use routing::crypto::CryptoContext;
use routing::error::RoutingError;
use routing::node_interface::{CreatePersonas, Interface};
use routing::relay::RelayMap;
use routing::routing_node::{
    ignore, NodeState, RoutingNode, BEACON_PORT, PUBLIC_ID_CACHE_CAPACITY,
};
use routing::routing_table::{RoutingTable, ROUTING_TABLE_CAPACITY};
use routing::types::{Endpoint, FilterType, IpAddress, NameType, Protocol, PublicPmid};

struct Persona {
    serial: u32,
}

impl Interface for Persona {}

struct Factory {
    made: u32,
}

impl CreatePersonas<Persona> for Factory {
    fn create_personas(&mut self) -> Persona {
        self.made += 1;
        Persona { serial: self.made }
    }
}

fn tcp(host: u32, port: u16) -> Endpoint {
    Endpoint { protocol: Protocol::Tcp, address: IpAddress::V4(host), port }
}

fn name(byte: u8) -> NameType {
    NameType::new(vec![byte; 64])
}

fn credential(byte: u8) -> PublicPmid {
    PublicPmid {
        name: name(byte),
        public_key: vec![byte; 32],
        public_sign_key: vec![byte; 32],
        validation_token: vec![byte; 64],
    }
}

fn listening_node() -> RoutingNode<Factory> {
    let crypto = CryptoContext::init().unwrap();
    RoutingNode::new(Factory { made: 0 }, &crypto, Ok(vec![tcp(1, 5483), tcp(2, 5483)]))
}

#[test]
fn ignore_takes_any_result() {
    ignore::<u8, u8>(Ok(1));
    ignore::<u8, &str>(Err("dropped"));
}

#[test]
fn the_beacon_port_is_the_default() {
    assert_eq!(BEACON_PORT, 5483);
}

#[test]
fn a_node_whose_transport_listens_accepts_on_its_endpoints() {
    let node = listening_node();
    assert_eq!(node.state(), NodeState::Listening);
    assert_eq!(node.accepting_on(), &vec![tcp(1, 5483), tcp(2, 5483)]);
}

#[test]
fn a_node_whose_transport_fails_is_built_without_endpoints() {
    let crypto = CryptoContext::init().unwrap();
    let node = RoutingNode::new(
        Factory { made: 0 },
        &crypto,
        Err(RoutingError::TransportStartupFailure),
    );
    assert_eq!(node.state(), NodeState::Constructed);
    assert_eq!(node.accepting_on(), &Vec::<Endpoint>::new());
    assert_eq!(node.own_name().0.len(), 64);
}

#[test]
fn a_node_that_listens_on_nothing_still_listens() {
    let crypto = CryptoContext::init().unwrap();
    let node = RoutingNode::new(Factory { made: 0 }, &crypto, Ok(vec![]));
    assert_eq!(node.state(), NodeState::Listening);
    assert_eq!(node.accepting_on(), &Vec::<Endpoint>::new());
}

#[test]
fn a_new_node_is_named_by_its_identity_and_knows_nobody() {
    let node = listening_node();
    assert_eq!(node.own_name(), &node.id().get_name());
    assert_eq!(node.id().public_sign_key().len(), 32);
    assert_eq!(node.bootstrap(), (None, None));
    assert_eq!(node.peer_of(&tcp(1, 1)), None);
    assert_eq!(node.endpoints_of(&name(1)), vec![]);
    assert!(!node.is_routed(&name(1)));
    assert!(!node.is_relayed(&name(1)));
    assert!(!node.is_alive(&name(1), 0, u64::MAX));
    let other = listening_node();
    assert_ne!(other.own_name(), node.own_name());
}

#[test]
fn a_new_node_has_an_empty_filter_and_cache() {
    let mut node = listening_node();
    assert!(node.filter_mut().is_empty());
    assert_eq!(node.filter_mut().len(), 0);
    assert_eq!(node.public_id_of(&name(1), 0), None);
}

#[test]
fn a_cached_identity_is_found_for_ten_minutes() {
    let mut node = listening_node();
    node.cache_public_id(name(1), credential(1), 1_000);
    node.cache_public_id(name(2), credential(2), 2_000);
    assert_eq!(node.public_id_of(&name(1), 1_000), Some(credential(1)));
    assert_eq!(node.public_id_of(&name(3), 1_000), None);
    node.cache_public_id(name(1), credential(7), 3_000);
    assert_eq!(node.public_id_of(&name(1), 3_000 + 599_999), Some(credential(7)));
    assert_eq!(node.public_id_of(&name(2), 2_000 + 599_999), Some(credential(2)));
    assert_eq!(node.public_id_of(&name(2), 2_000 + 600_000), None);
    assert_eq!(node.public_id_of(&name(1), 3_000 + 600_000), None);
}

#[test]
fn the_filter_knows_a_message_it_has_seen() {
    let crypto = CryptoContext::init().unwrap();
    let mut node = listening_node();
    let first = FilterType::new(&crypto, &name(1), 7, &vec![1, 2, 3]);
    let other = FilterType::new(&crypto, &name(1), 8, &vec![1, 2, 3]);
    let again = FilterType::new(&crypto, &name(1), 7, &vec![1, 2, 3]);
    assert!(!node.filter_mut().contains(&first));
    assert_eq!(node.filter_mut().insert(&first), 0);
    assert!(node.filter_mut().contains(&again));
    assert!(!node.filter_mut().contains(&other));
    assert_eq!(node.filter_mut().insert(&again), 1);
    assert_eq!(node.filter_mut().len(), 1);
}

#[test]
fn the_cache_evicts_the_least_recently_used_identity_when_full() {
    assert_eq!(PUBLIC_ID_CACHE_CAPACITY, 1000);
    let mut node = listening_node();
    let key = |i: usize| NameType::new(vec![(i / 256) as u8, (i % 256) as u8]);
    for i in 0..PUBLIC_ID_CACHE_CAPACITY {
        node.cache_public_id(key(i), credential(1), 5);
    }
    // the first identity is used again, so the second is now the least recently used
    assert_eq!(node.public_id_of(&key(0), 6), Some(credential(1)));
    node.cache_public_id(key(PUBLIC_ID_CACHE_CAPACITY), credential(2), 7);
    assert_eq!(node.public_id_of(&key(1), 8), None);
    assert_eq!(node.public_id_of(&key(0), 8), Some(credential(1)));
    for i in 2..PUBLIC_ID_CACHE_CAPACITY {
        assert_eq!(node.public_id_of(&key(i), 8), Some(credential(1)));
    }
    assert_eq!(node.public_id_of(&key(PUBLIC_ID_CACHE_CAPACITY), 8), Some(credential(2)));
}

#[test]
fn the_personas_are_handed_over_once() {
    let mut node = listening_node();
    let own_name = node.own_name().clone();
    let membrane = node.run_membrane::<Persona>().unwrap();
    assert_eq!(node.state(), NodeState::MembraneSpawned);
    assert_eq!(membrane.own_name(), own_name);
    assert!(node.run_membrane::<Persona>().is_none());
    assert_eq!(node.state(), NodeState::MembraneSpawned);
    let (persona, id) = membrane.into_parts();
    assert_eq!(persona.serial, 1);
    assert_eq!(id.get_name(), own_name);
    assert_eq!(id.secret_key(), node.id().secret_key());
    assert_eq!(node.own_name(), &own_name);
}

#[test]
fn a_node_that_does_not_listen_hands_over_all_the_same() {
    let crypto = CryptoContext::init().unwrap();
    let mut node =
        RoutingNode::new(Factory { made: 4 }, &crypto, Err(RoutingError::TransportStartupFailure));
    let membrane = node.run_membrane::<Persona>().unwrap();
    assert_eq!(node.state(), NodeState::MembraneSpawned);
    assert_eq!(membrane.into_parts().0.serial, 5);
}

#[test]
fn message_ids_go_up_by_one_and_wrap() {
    let mut node = listening_node();
    let first = node.next_message_id();
    assert_eq!(node.get_next_message_id(), first);
    assert_eq!(node.next_message_id(), first.wrapping_add(1));
    assert_eq!(node.get_next_message_id(), first.wrapping_add(1));
    assert_eq!(node.get_next_message_id(), first.wrapping_add(2));
    // walk up to the wrap from wherever the random start lies, in at most two draws
    let mut node = listening_node();
    while node.next_message_id() != u32::MAX && node.next_message_id() > 1000 {
        node = listening_node();
        if node.next_message_id() < u32::MAX - 1000 {
            break;
        }
    }
    let before = node.next_message_id();
    let handed = node.get_next_message_id();
    assert_eq!(handed, before);
    assert_eq!(node.next_message_id(), if before == u32::MAX { 0 } else { before + 1 });
}

#[test]
fn connections_are_indexed_both_ways_and_mark_the_peer_alive() {
    let mut node = listening_node();
    assert!(node.handle_connect(tcp(9, 1), name(9), 1_000));
    assert!(node.handle_connect(tcp(9, 2), name(9), 2_000));
    assert!(!node.handle_connect(tcp(9, 2), name(8), 3_000));
    assert_eq!(node.peer_of(&tcp(9, 1)), Some(&name(9)));
    assert_eq!(node.endpoints_of(&name(9)), vec![tcp(9, 1), tcp(9, 2)]);
    assert_eq!(node.endpoints_of(&name(8)), vec![]);
    assert!(node.is_alive(&name(9), 2_499, 500));
    assert!(!node.is_alive(&name(9), 2_500, 500));
    assert!(!node.is_alive(&name(8), 3_000, 500));
    assert_eq!(node.handle_lost_connection(&tcp(9, 1)), Some(name(9)));
    assert_eq!(node.handle_lost_connection(&tcp(9, 1)), None);
    assert_eq!(node.peer_of(&tcp(9, 1)), None);
    assert_eq!(node.endpoints_of(&name(9)), vec![tcp(9, 2)]);
    assert_eq!(node.handle_lost_connection(&tcp(9, 2)), Some(name(9)));
    assert_eq!(node.endpoints_of(&name(9)), vec![]);
    assert!(node.is_alive(&name(9), 2_100, 500));
}

#[test]
fn stale_peers_are_pruned_in_the_order_of_their_names() {
    let mut node = listening_node();
    node.handle_connect(tcp(3, 1), name(3), 100);
    node.handle_connect(tcp(1, 1), name(1), 100);
    node.handle_connect(tcp(2, 1), name(2), 900);
    assert_eq!(node.prune_stale(1_000, 500), vec![name(1), name(3)]);
    assert_eq!(node.prune_stale(1_000, 500), vec![]);
    assert!(node.is_alive(&name(2), 1_000, 500));
    assert!(!node.is_alive(&name(1), 1_000, 5_000));
    assert_eq!(node.peer_of(&tcp(1, 1)), Some(&name(1)));
}

#[test]
fn a_relayed_peer_is_promoted_and_leaves_the_relay_map() {
    let mut node = listening_node();
    assert!(node.add_relay(name(1), vec![tcp(1, 1)]));
    assert!(!node.add_relay(name(1), vec![tcp(1, 2)]));
    assert!(node.is_relayed(&name(1)));
    assert!(!node.is_routed(&name(1)));
    assert!(!node.add_to_routing_table(name(1), vec![tcp(1, 1)]));
    assert!(node.promote(&name(1)));
    assert!(node.is_routed(&name(1)));
    assert!(!node.is_relayed(&name(1)));
    assert!(!node.promote(&name(1)));
    assert!(!node.promote(&name(2)));
    assert!(!node.add_relay(name(1), vec![tcp(1, 1)]));
    assert!(node.drop_peer(&name(1)));
    assert!(!node.drop_peer(&name(1)));
    assert!(!node.is_routed(&name(1)));
}

#[test]
fn a_node_neither_routes_nor_relays_for_itself() {
    let mut node = listening_node();
    let own = node.own_name().clone();
    assert!(!node.add_relay(own.clone(), vec![]));
    assert!(!node.add_to_routing_table(own.clone(), vec![]));
    assert!(!node.is_relayed(&own));
    assert!(!node.is_routed(&own));
}

#[test]
fn a_full_table_leaves_the_peer_in_the_relay_map() {
    assert_eq!(ROUTING_TABLE_CAPACITY, 64);
    let mut node = listening_node();
    for i in 0..64u8 {
        assert!(node.add_to_routing_table(name(i), vec![tcp(i as u32, 1)]));
    }
    assert!(!node.add_to_routing_table(name(64), vec![]));
    assert!(node.add_relay(name(65), vec![tcp(65, 1)]));
    assert!(!node.promote(&name(65)));
    assert!(node.is_relayed(&name(65)));
    assert!(!node.is_routed(&name(65)));
    assert!(node.drop_peer(&name(0)));
    assert!(node.promote(&name(65)));
    assert!(node.is_routed(&name(65)));
    assert!(!node.is_relayed(&name(65)));
}

#[test]
fn the_bootstrap_peer_is_kept_on_record() {
    let mut node = listening_node();
    node.set_bootstrap(Some(tcp(7, 7)), Some(name(7)));
    assert_eq!(node.bootstrap(), (Some(tcp(7, 7)), Some(&name(7))));
    node.set_bootstrap(None, None);
    assert_eq!(node.bootstrap(), (None, None));
}

#[test]
fn a_routing_table_is_bounded_and_never_holds_its_node() {
    let mut table = RoutingTable::new(&name(200));
    assert_eq!(table.len(), 0);
    assert!(!table.add_node(name(200), vec![]));
    for i in 0..64u8 {
        assert!(table.add_node(name(i), vec![tcp(i as u32, 1)]));
        assert!(!table.add_node(name(i), vec![]));
    }
    assert_eq!(table.len(), 64);
    assert!(!table.add_node(name(100), vec![]));
    assert!(table.has_node(&name(63)));
    assert!(!table.has_node(&name(100)));
    assert!(table.drop_node(&name(63)));
    assert!(!table.drop_node(&name(63)));
    assert_eq!(table.len(), 63);
    assert!(table.add_node(name(100), vec![]));
}

#[test]
fn a_relay_map_holds_each_peer_once_and_never_its_node() {
    let mut relay = RelayMap::new(&name(200));
    assert!(!relay.add_client(name(200), vec![]));
    assert!(relay.add_client(name(1), vec![tcp(1, 1), tcp(1, 2)]));
    assert!(!relay.add_client(name(1), vec![]));
    assert!(relay.contains_relay(&name(1)));
    assert_eq!(relay.get_endpoints(&name(1)), Some(vec![tcp(1, 1), tcp(1, 2)]));
    assert_eq!(relay.get_endpoints(&name(2)), None);
    assert!(relay.drop_client(&name(1)));
    assert!(!relay.drop_client(&name(1)));
    assert!(!relay.contains_relay(&name(1)));
}

#[test]
fn a_membrane_owns_its_personas_and_identity() {
    let crypto = CryptoContext::init().unwrap();
    let id = routing::types::Id::new(&crypto);
    let name = id.get_name();
    let membrane = routing::routing_membrane::RoutingMembrane::new(Persona { serial: 3 }, id);
    assert_eq!(membrane.own_name(), name);
    let (persona, id) = membrane.into_parts();
    assert_eq!(persona.serial, 3);
    assert_eq!(id.get_name(), name);
}
