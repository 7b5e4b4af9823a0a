//! The connections of a node, indexed both ways: from each endpoint to the peer behind
//! it, and from each peer to its endpoints in the order in which they connected.

use crate::name_map::NameMap;
use crate::pairs::{
    lemma_paired_at, lemma_paired_insert, lemma_paired_len, lemma_paired_remove, paired,
};
use crate::types::{Endpoint, NameType};
use vstd::prelude::*;

verus! {

/// A map from endpoints to the names of the peers behind them.
pub struct EndpointMap {
    entries: Vec<(Endpoint, NameType)>,
}

impl View for EndpointMap {
    type V = Map<Endpoint, Seq<u8>>;

    closed spec fn view(&self) -> Map<Endpoint, Seq<u8>> {
        paired(self.endpoints(), self.names())
    }
}

impl EndpointMap {
    /// The endpoints of the entries, in the order in which the map holds them.
    pub closed spec fn endpoints(&self) -> Seq<Endpoint> {
        Seq::new(self.entries@.len(), |i: int| self.entries@[i].0)
    }

    /// The names of the entries, each at the place of its endpoint.
    pub closed spec fn names(&self) -> Seq<Seq<u8>> {
        Seq::new(self.entries@.len(), |i: int| self.entries@[i].1@)
    }

    /// No endpoint stands twice.
    pub closed spec fn wf(&self) -> bool {
        self.endpoints().no_duplicates()
    }

    /// A map without entries.
    pub fn new() -> (m: EndpointMap)
        ensures
            m.wf(),
            m@ == Map::<Endpoint, Seq<u8>>::empty(),
    {
        let m = EndpointMap { entries: Vec::new() };
        proof {
            assert(m@ =~= Map::<Endpoint, Seq<u8>>::empty());
        }
        m
    }

    /// The number of entries.
    pub fn len(&self) -> (r: usize)
        ensures
            r == self.endpoints().len(),
    {
        self.entries.len()
    }

    /// The map holds as many entries as there are endpoints.
    pub proof fn lemma_len(&self)
        requires
            self.wf(),
        ensures
            self@.dom().finite(),
            self@.len() == self.endpoints().len(),
    {
        lemma_paired_len(self.endpoints(), self.names());
    }

    /// Finds the place of `endpoint`.
    fn search(&self, endpoint: &Endpoint) -> (r: Option<usize>)
        ensures
            match r {
                Some(at) => at < self.endpoints().len() && self.endpoints()[at as int]
                    == *endpoint,
                None => !self.endpoints().contains(*endpoint),
            },
    {
        let mut i: usize = 0;
        while i < self.entries.len()
            invariant
                i <= self.entries@.len(),
                self.endpoints().len() == self.entries@.len(),
                forall|k: int| 0 <= k < i ==> self.endpoints()[k] != *endpoint,
            decreases self.entries@.len() - i,
        {
            if self.entries[i].0 == *endpoint {
                return Some(i);
            }
            i += 1;
        }
        None
    }

    /// The name that the map holds under `endpoint`.
    pub fn get(&self, endpoint: &Endpoint) -> (r: Option<&NameType>)
        requires
            self.wf(),
        ensures
            match r {
                Some(name) => self@.contains_key(*endpoint) && name@ == self@[*endpoint],
                None => !self@.contains_key(*endpoint),
            },
    {
        match self.search(endpoint) {
            Some(at) => {
                proof {
                    lemma_paired_at(self.endpoints(), self.names(), at as int);
                }
                Some(&self.entries[at].1)
            },
            None => None,
        }
    }

    /// Puts `name` under `endpoint`, and hands back the name that stood there before.
    pub fn insert(&mut self, endpoint: Endpoint, name: NameType) -> (r: Option<NameType>)
        requires
            old(self).wf(),
        ensures
            final(self).wf(),
            final(self)@ == old(self)@.insert(endpoint, name@),
            match r {
                Some(previous) => old(self)@.contains_key(endpoint) && previous@ == old(
                    self,
                )@[endpoint],
                None => !old(self)@.contains_key(endpoint),
            },
    {
        let previous = self.remove(&endpoint);
        let ghost endpoints = self.endpoints();
        let ghost names = self.names();
        proof {
            assert(!self@.contains_key(endpoint));
            assert(!endpoints.contains(endpoint));
            lemma_paired_insert(endpoints, names, endpoints.len() as int, endpoint, name@);
            assert(old(self)@.remove(endpoint).insert(endpoint, name@) =~= old(self)@.insert(
                endpoint,
                name@,
            ));
        }
        self.entries.push((endpoint, name));
        proof {
            assert(self.endpoints() =~= endpoints.insert(endpoints.len() as int, endpoint));
            assert(self.names() =~= names.insert(names.len() as int, name@));
        }
        previous
    }

    /// Takes the entry under `endpoint` out of the map, and hands back its name.
    pub fn remove(&mut self, endpoint: &Endpoint) -> (r: Option<NameType>)
        requires
            old(self).wf(),
        ensures
            final(self).wf(),
            final(self)@ == old(self)@.remove(*endpoint),
            match r {
                Some(name) => old(self)@.contains_key(*endpoint) && name@ == old(self)@[*endpoint],
                None => !old(self)@.contains_key(*endpoint),
            },
    {
        let ghost endpoints = self.endpoints();
        let ghost names = self.names();
        match self.search(endpoint) {
            Some(at) => {
                proof {
                    lemma_paired_at(endpoints, names, at as int);
                    lemma_paired_remove(endpoints, names, at as int);
                }
                let taken = self.entries.remove(at);
                proof {
                    assert(self.endpoints() =~= endpoints.remove(at as int));
                    assert(self.names() =~= names.remove(at as int));
                }
                Some(taken.1)
            },
            None => {
                proof {
                    assert(self@.remove(*endpoint) =~= self@);
                }
                None
            },
        }
    }
}

/// Finds the first place at which `endpoint` stands in `list`.
pub fn position(list: &Vec<Endpoint>, endpoint: &Endpoint) -> (r: Option<usize>)
    ensures
        match r {
            Some(at) => at < list@.len() && list@[at as int] == *endpoint && forall|k: int|
                0 <= k < at ==> list@[k] != *endpoint,
            None => !list@.contains(*endpoint),
        },
{
    let mut i: usize = 0;
    while i < list.len()
        invariant
            i <= list@.len(),
            forall|k: int| 0 <= k < i ==> list@[k] != *endpoint,
        decreases list@.len() - i,
    {
        if list[i] == *endpoint {
            return Some(i);
        }
        i += 1;
    }
    None
}

/// `list` without `endpoint`, which stands in it once.
pub open spec fn without(list: Seq<Endpoint>, endpoint: Endpoint) -> Seq<Endpoint> {
    list.remove(list.index_of(endpoint))
}

/// The endpoints of a peer once `endpoint` has connected to it: those it had, then the
/// new one.
pub open spec fn joined(
    endpoints: Map<Seq<u8>, Seq<Endpoint>>,
    name: Seq<u8>,
    endpoint: Endpoint,
) -> Seq<Endpoint> {
    if endpoints.contains_key(name) {
        endpoints[name].push(endpoint)
    } else {
        seq![endpoint]
    }
}

/// The two sides say the same: each endpoint stands among the endpoints of its peer, each
/// endpoint of a peer leads to that peer, and no peer is held without an endpoint or holds
/// one twice.
pub open spec fn agreeing(
    peers: Map<Endpoint, Seq<u8>>,
    endpoints: Map<Seq<u8>, Seq<Endpoint>>,
) -> bool {
    &&& forall|e: Endpoint| #[trigger]
        peers.contains_key(e) ==> endpoints.contains_key(peers[e]) && endpoints[peers[e]].contains(
            e,
        )
    &&& forall|n: Seq<u8>, k: int|
        endpoints.contains_key(n) && 0 <= k < endpoints[n].len() ==> peers.contains_key(
            #[trigger] endpoints[n][k],
        ) && peers[endpoints[n][k]] == n
    &&& forall|n: Seq<u8>| #[trigger]
        endpoints.contains_key(n) ==> endpoints[n].len() > 0 && endpoints[n].no_duplicates()
}

/// Connecting a new endpoint to a peer keeps the two sides in agreement.
pub proof fn lemma_connect_agrees(
    peers: Map<Endpoint, Seq<u8>>,
    endpoints: Map<Seq<u8>, Seq<Endpoint>>,
    endpoint: Endpoint,
    name: Seq<u8>,
)
    requires
        agreeing(peers, endpoints),
        !peers.contains_key(endpoint),
    ensures
        agreeing(
            peers.insert(endpoint, name),
            endpoints.insert(name, joined(endpoints, name, endpoint)),
        ),
{
    let list = joined(endpoints, name, endpoint);
    let peers2 = peers.insert(endpoint, name);
    let endpoints2 = endpoints.insert(name, list);
    assert(list[list.len() - 1] == endpoint);
    assert forall|e: Endpoint| #[trigger] peers2.contains_key(e) implies endpoints2.contains_key(
        peers2[e],
    ) && endpoints2[peers2[e]].contains(e) by {
        if e == endpoint {
        } else {
            assert(peers.contains_key(e));
            let m = peers[e];
            if m == name {
                let k = endpoints[m].index_of(e);
                assert(list[k] == e);
            }
        }
    }
    assert forall|n: Seq<u8>, k: int|
        endpoints2.contains_key(n) && 0 <= k < endpoints2[n].len() implies peers2.contains_key(
        #[trigger] endpoints2[n][k],
    ) && peers2[endpoints2[n][k]] == n by {
        if n == name {
            if endpoints.contains_key(name) && k < endpoints[name].len() {
                assert(list[k] == endpoints[name][k]);
                assert(peers.contains_key(endpoints[name][k]));
            }
        } else {
            assert(peers.contains_key(endpoints[n][k]));
        }
    }
    assert forall|n: Seq<u8>| #[trigger] endpoints2.contains_key(n) implies endpoints2[n].len() > 0
        && endpoints2[n].no_duplicates() by {
        if n == name {
            if endpoints.contains_key(name) {
                let held = endpoints[name];
                assert forall|i: int, j: int|
                    0 <= i < list.len() && 0 <= j < list.len() && i != j implies list[i]
                    != list[j] by {
                    if i < held.len() {
                        assert(peers.contains_key(held[i]));
                    }
                    if j < held.len() {
                        assert(peers.contains_key(held[j]));
                    }
                }
            }
        } else {
            assert(endpoints.contains_key(n));
        }
    }
}

/// What the peers' side holds once `endpoint`, which led to `name`, is gone: the peer's
/// other endpoints, or no entry for the peer where it had no other.
pub open spec fn parted(
    endpoints: Map<Seq<u8>, Seq<Endpoint>>,
    name: Seq<u8>,
    endpoint: Endpoint,
) -> Map<Seq<u8>, Seq<Endpoint>> {
    if without(endpoints[name], endpoint).len() == 0 {
        endpoints.remove(name)
    } else {
        endpoints.insert(name, without(endpoints[name], endpoint))
    }
}

/// Disconnecting an endpoint keeps the two sides in agreement.
pub proof fn lemma_disconnect_agrees(
    peers: Map<Endpoint, Seq<u8>>,
    endpoints: Map<Seq<u8>, Seq<Endpoint>>,
    endpoint: Endpoint,
)
    requires
        agreeing(peers, endpoints),
        peers.contains_key(endpoint),
    ensures
        agreeing(peers.remove(endpoint), parted(endpoints, peers[endpoint], endpoint)),
{
    let name = peers[endpoint];
    let held = endpoints[name];
    let at = held.index_of(endpoint);
    let rest = without(held, endpoint);
    let peers2 = peers.remove(endpoint);
    let endpoints2 = parted(endpoints, name, endpoint);
    assert(held.contains(endpoint));
    assert forall|k: int| 0 <= k < rest.len() implies #[trigger] rest[k] != endpoint
        && held.contains(rest[k]) by {
        let ok = if k < at { k } else { k + 1 };
        assert(rest[k] == held[ok]);
    }
    assert forall|e: Endpoint| #[trigger] peers2.contains_key(e) implies endpoints2.contains_key(
        peers2[e],
    ) && endpoints2[peers2[e]].contains(e) by {
        assert(peers.contains_key(e));
        let m = peers[e];
        if m == name {
            let k = held.index_of(e);
            let rk = if k < at { k } else { k - 1 };
            assert(rest[rk] == e);
        }
    }
    assert forall|n: Seq<u8>, k: int|
        endpoints2.contains_key(n) && 0 <= k < endpoints2[n].len() implies peers2.contains_key(
        #[trigger] endpoints2[n][k],
    ) && peers2[endpoints2[n][k]] == n by {
        if n == name {
            let ok = if k < at { k } else { k + 1 };
            assert(rest[k] == held[ok]);
            assert(peers.contains_key(held[ok]));
        } else {
            assert(peers.contains_key(endpoints[n][k]));
            if endpoints[n][k] == endpoint {
                assert(peers[endpoints[n][k]] == n);
            }
        }
    }
    assert forall|n: Seq<u8>| #[trigger] endpoints2.contains_key(n) implies endpoints2[n].len() > 0
        && endpoints2[n].no_duplicates() by {
        assert(endpoints.contains_key(n));
        if n == name {
            assert forall|i: int, j: int|
                0 <= i < rest.len() && 0 <= j < rest.len() && i != j implies rest[i]
                != rest[j] by {
                let oi = if i < at { i } else { i + 1 };
                let oj = if j < at { j } else { j + 1 };
                assert(rest[i] == held[oi] && rest[j] == held[oj]);
            }
        }
    }
}

/// What a map from names to lists of endpoints stands for.
pub open spec fn list_views(lists: Map<Seq<u8>, Vec<Endpoint>>) -> Map<Seq<u8>, Seq<Endpoint>> {
    Map::new(|n: Seq<u8>| lists.contains_key(n), |n: Seq<u8>| lists[n]@)
}

/// The connections of a node, indexed by endpoint and by peer.
pub struct ConnectionIndex {
    forward: EndpointMap,
    reverse: NameMap<Vec<Endpoint>>,
}

impl ConnectionIndex {
    /// The peer behind each connected endpoint.
    pub closed spec fn peers(&self) -> Map<Endpoint, Seq<u8>> {
        self.forward@
    }

    /// The endpoints of each connected peer, in the order in which they connected.
    pub closed spec fn endpoints(&self) -> Map<Seq<u8>, Seq<Endpoint>> {
        list_views(self.reverse@)
    }

    /// The two sides of the index agree.
    pub open spec fn consistent(&self) -> bool {
        agreeing(self.peers(), self.endpoints())
    }

    /// Each side is in order, and the two agree.
    pub closed spec fn wf(&self) -> bool {
        &&& self.forward.wf()
        &&& self.reverse.wf()
        &&& self.consistent()
    }

    /// The two sides of an index agree at all times: whatever connects and disconnects
    /// have led to it, a well-formed index is consistent.
    pub proof fn law_consistent(&self)
        requires
            self.wf(),
        ensures
            self.consistent(),
    {
    }

    /// An index without connections.
    pub fn new() -> (index: ConnectionIndex)
        ensures
            index.wf(),
            index.consistent(),
            index.peers() == Map::<Endpoint, Seq<u8>>::empty(),
            index.endpoints() == Map::<Seq<u8>, Seq<Endpoint>>::empty(),
    {
        let index = ConnectionIndex { forward: EndpointMap::new(), reverse: NameMap::new() };
        proof {
            assert(index.endpoints() =~= Map::<Seq<u8>, Seq<Endpoint>>::empty());
        }
        index
    }

    /// The number of connected endpoints.
    pub fn len(&self) -> (r: usize)
        requires
            self.wf(),
        ensures
            r == self.peers().len(),
    {
        proof {
            self.forward.lemma_len();
        }
        self.forward.len()
    }

    /// The peer behind `endpoint`.
    pub fn peer_of(&self, endpoint: &Endpoint) -> (r: Option<&NameType>)
        requires
            self.wf(),
        ensures
            match r {
                Some(name) => self.peers().contains_key(*endpoint) && name@
                    == self.peers()[*endpoint],
                None => !self.peers().contains_key(*endpoint),
            },
    {
        self.forward.get(endpoint)
    }

    /// The endpoints of the peer `name`, in the order in which they connected; none where
    /// the peer is not connected.
    pub fn endpoints_of(&self, name: &NameType) -> (r: Vec<Endpoint>)
        requires
            self.wf(),
        ensures
            r@ == if self.endpoints().contains_key(name@) {
                self.endpoints()[name@]
            } else {
                Seq::<Endpoint>::empty()
            },
    {
        match self.reverse.get(name) {
            Some(list) => {
                let copy = list.clone();
                proof {
                    assert(copy@ =~= list@);
                }
                copy
            },
            None => Vec::new(),
        }
    }

    /// Records that `endpoint` has connected and leads to the peer `name`. An endpoint
    /// leads to one peer only: where it is connected already, nothing changes and the
    /// answer is `false`.
    pub fn connect(&mut self, endpoint: Endpoint, name: NameType) -> (accepted: bool)
        requires
            old(self).wf(),
        ensures
            final(self).wf(),
            final(self).consistent(),
            accepted == !old(self).peers().contains_key(endpoint),
            accepted ==> final(self).peers() == old(self).peers().insert(endpoint, name@)
                && final(self).endpoints() == old(self).endpoints().insert(
                name@,
                joined(old(self).endpoints(), name@, endpoint),
            ),
            !accepted ==> final(self).peers() == old(self).peers() && final(self).endpoints()
                == old(self).endpoints(),
    {
        if self.forward.get(&endpoint).is_some() {
            return false;
        }
        let ghost peers = self.peers();
        let ghost endpoints = self.endpoints();
        let mut list: Vec<Endpoint> = match self.reverse.remove(&name) {
            Some(held) => held,
            None => Vec::new(),
        };
        list.push(endpoint);
        proof {
            assert(list@ =~= joined(endpoints, name@, endpoint));
            lemma_connect_agrees(peers, endpoints, endpoint, name@);
        }
        let ghost list_view = list@;
        self.reverse.insert(name.clone(), list);
        self.forward.insert(endpoint, name);
        proof {
            assert(self.endpoints() =~= endpoints.insert(name@, list_view));
        }
        true
    }

    /// Records that `endpoint` is gone, and hands back the name of the peer it led to. A
    /// peer that has no endpoint left is dropped from the index.
    pub fn disconnect(&mut self, endpoint: &Endpoint) -> (r: Option<NameType>)
        requires
            old(self).wf(),
        ensures
            final(self).wf(),
            final(self).consistent(),
            match r {
                Some(name) => old(self).peers().contains_key(*endpoint) && name@ == old(
                    self,
                ).peers()[*endpoint] && final(self).peers() == old(self).peers().remove(*endpoint)
                    && final(self).endpoints() == parted(
                    old(self).endpoints(),
                    name@,
                    *endpoint,
                ),
                None => !old(self).peers().contains_key(*endpoint) && final(self).peers() == old(
                    self,
                ).peers() && final(self).endpoints() == old(self).endpoints(),
            },
    {
        let ghost peers = self.peers();
        let ghost endpoints = self.endpoints();
        let name = match self.forward.remove(endpoint) {
            Some(name) => name,
            None => {
                proof {
                    assert(self.peers() =~= peers);
                }
                return None;
            },
        };
        proof {
            lemma_disconnect_agrees(peers, endpoints, *endpoint);
        }
        let mut list: Vec<Endpoint> = match self.reverse.remove(&name) {
            Some(held) => held,
            None => Vec::new(),
        };
        let ghost held = list@;
        match position(&list, endpoint) {
            Some(at) => {
                list.remove(at);
                proof {
                    assert(held.index_of(*endpoint) == at);
                    assert(list@ =~= without(held, *endpoint));
                }
            },
            None => {},
        }
        let ghost rest = list@;
        if list.len() > 0 {
            self.reverse.insert(name.clone(), list);
            proof {
                assert(self.endpoints() =~= endpoints.insert(name@, rest));
            }
        } else {
            proof {
                assert(self.endpoints() =~= endpoints.remove(name@));
            }
        }
        Some(name)
    }
}

} // verus!
