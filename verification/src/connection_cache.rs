//! When each peer was last seen alive.

use crate::expiry::{fresh, is_fresh};
use crate::name_map::{ascending, precedes, NameMap};
use crate::types::NameType;
use vstd::prelude::*;

verus! {

/// For each peer, the time at which it was last seen alive.
pub struct ConnectionCache {
    seen: NameMap<u64>,
}

impl View for ConnectionCache {
    type V = Map<Seq<u8>, u64>;

    closed spec fn view(&self) -> Map<Seq<u8>, u64> {
        self.seen@
    }
}

/// The entries of `seen` that are fresh at `now`.
pub open spec fn fresh_part(seen: Map<Seq<u8>, u64>, now: u64, window: u64) -> Map<Seq<u8>, u64> {
    Map::new(|n: Seq<u8>| seen.contains_key(n) && fresh(seen[n], now, window), |n: Seq<u8>| seen[n])
}

/// `names` lists, in ascending order, the peers of `seen` that are stale at `now`.
pub open spec fn lists_stale(
    names: Seq<Seq<u8>>,
    seen: Map<Seq<u8>, u64>,
    now: u64,
    window: u64,
) -> bool {
    &&& ascending(names)
    &&& forall|n: Seq<u8>| names.contains(n) <==> seen.contains_key(n) && !fresh(seen[n], now, window)
}

/// The names that the identifiers of `names` stand for.
pub open spec fn name_views(names: Seq<NameType>) -> Seq<Seq<u8>> {
    Seq::new(names.len(), |i: int| names[i]@)
}

impl ConnectionCache {
    /// The entries are in order.
    pub closed spec fn wf(&self) -> bool {
        self.seen.wf()
    }

    /// The peer `name` counts as alive at `now`: it was seen less than `window` ago.
    pub open spec fn alive(&self, name: Seq<u8>, now: u64, window: u64) -> bool {
        self@.contains_key(name) && fresh(self@[name], now, window)
    }

    /// A cache without entries.
    pub fn new() -> (cache: ConnectionCache)
        ensures
            cache.wf(),
            cache@ == Map::<Seq<u8>, u64>::empty(),
    {
        ConnectionCache { seen: NameMap::new() }
    }

    /// The number of entries, stale ones included.
    pub fn len(&self) -> (r: usize)
        requires
            self.wf(),
        ensures
            r == self@.len(),
    {
        proof {
            self.seen.lemma_len();
        }
        self.seen.len()
    }

    /// Records that the peer `name` was seen alive at `now`.
    pub fn touch(&mut self, name: NameType, now: u64)
        requires
            old(self).wf(),
        ensures
            final(self).wf(),
            final(self)@ == old(self)@.insert(name@, now),
    {
        self.seen.insert(name, now);
    }

    /// Forgets the peer `name`.
    pub fn remove(&mut self, name: &NameType)
        requires
            old(self).wf(),
        ensures
            final(self).wf(),
            final(self)@ == old(self)@.remove(name@),
    {
        self.seen.remove(name);
    }

    /// The time at which the peer `name` was last seen alive.
    pub fn last_seen(&self, name: &NameType) -> (r: Option<u64>)
        requires
            self.wf(),
        ensures
            r == if self@.contains_key(name@) {
                Some(self@[name@])
            } else {
                None::<u64>
            },
    {
        match self.seen.get(name) {
            Some(at) => Some(*at),
            None => None,
        }
    }

    /// Tells whether the peer `name` counts as alive at `now`. An entry that is older than
    /// `window` counts as absent, whether or not it has been swept.
    pub fn is_alive(&self, name: &NameType, now: u64, window: u64) -> (r: bool)
        requires
            self.wf(),
        ensures
            r == self.alive(name@, now, window),
    {
        match self.seen.get(name) {
            Some(at) => is_fresh(*at, now, window),
            None => false,
        }
    }

    /// Drops the entries that are stale at `now`, and hands back the names of their peers
    /// in ascending order.
    pub fn sweep(&mut self, now: u64, window: u64) -> (stale: Vec<NameType>)
        requires
            old(self).wf(),
        ensures
            final(self).wf(),
            final(self)@ == fresh_part(old(self)@, now, window),
            lists_stale(name_views(stale@), old(self)@, now, window),
    {
        let stale = self.stale_peers(now, window);
        let ghost before = self@;
        let ghost listed = name_views(stale@);
        let mut j: usize = 0;
        while j < stale.len()
            invariant
                j <= stale@.len(),
                listed == name_views(stale@),
                self.seen.wf(),
                self.seen@ == unlisted(before, listed.take(j as int)),
            decreases stale@.len() - j,
        {
            self.seen.remove(&stale[j]);
            proof {
                let gone = listed.take(j as int);
                let more = listed.take(j + 1);
                assert(more =~= gone.push(listed[j as int]));
                assert forall|n: Seq<u8>| more.contains(n) <==> gone.contains(n) || n
                    == listed[j as int] by {
                    if gone.contains(n) {
                        assert(more[gone.index_of(n)] == n);
                    }
                    if n == listed[j as int] {
                        assert(more[j as int] == n);
                    }
                }
                assert(self.seen@ =~= unlisted(before, more));
            }
            j += 1;
        }
        proof {
            assert(listed.take(j as int) =~= listed);
            assert(self@ =~= fresh_part(before, now, window));
        }
        stale
    }

    /// The names of the peers whose entries are stale at `now`, in ascending order.
    pub fn stale_peers(&self, now: u64, window: u64) -> (stale: Vec<NameType>)
        requires
            self.wf(),
        ensures
            lists_stale(name_views(stale@), self@, now, window),
    {
        let ghost names = self.seen.names();
        let ghost values = self.seen.values();
        proof {
            self.seen.lemma_entries();
        }
        let mut stale: Vec<NameType> = Vec::new();
        let ghost mut origin: Seq<int> = Seq::empty();
        let mut i: usize = 0;
        while i < self.seen.len()
            invariant
                names == self.seen.names(),
                values == self.seen.values(),
                names.len() == values.len(),
                ascending(names),
                i <= names.len(),
                origin.len() == stale@.len(),
                forall|k: int|
                    0 <= k < origin.len() ==> 0 <= #[trigger] origin[k] < i && name_views(
                        stale@,
                    )[k] == names[origin[k]] && !fresh(values[origin[k]], now, window),
                ascending(name_views(stale@)),
                forall|m: int|
                    0 <= m < i && !fresh(#[trigger] values[m], now, window) ==> name_views(
                        stale@,
                    ).contains(names[m]),
            decreases names.len() - i,
        {
            if !is_fresh(*self.seen.value_at(i), now, window) {
                let ghost listed = name_views(stale@);
                stale.push(self.seen.name_at(i).clone());
                proof {
                    let longer = name_views(stale@);
                    assert(longer =~= listed.push(names[i as int]));
                    origin = origin.push(i as int);
                    assert forall|a: int, b: int| 0 <= a < b < longer.len() implies precedes(
                        #[trigger] longer[a],
                        #[trigger] longer[b],
                    ) by {
                        if b == listed.len() {
                            assert(longer[a] == names[origin[a]]);
                            assert(precedes(names[origin[a]], names[i as int]));
                        } else {
                            assert(precedes(listed[a], listed[b]));
                        }
                    }
                    assert forall|m: int|
                        0 <= m < i + 1 && !fresh(
                            #[trigger] values[m],
                            now,
                            window,
                        ) implies longer.contains(names[m]) by {
                        if m < i {
                            assert(longer[listed.index_of(names[m])] == names[m]);
                        } else {
                            assert(longer[listed.len() as int] == names[m]);
                        }
                    }
                }
            }
            i += 1;
        }
        proof {
            let listed = name_views(stale@);
            assert forall|n: Seq<u8>| listed.contains(n) <==> self@.contains_key(n) && !fresh(
                self@[n],
                now,
                window,
            ) by {
                if listed.contains(n) {
                    let k = listed.index_of(n);
                    assert(self@[names[origin[k]]] == values[origin[k]]);
                }
                if self@.contains_key(n) && !fresh(self@[n], now, window) {
                    let m = names.index_of(n);
                    assert(self@[names[m]] == values[m]);
                }
            }
        }
        stale
    }
}

/// The entries of `seen` under names that `gone` does not list.
pub open spec fn unlisted(seen: Map<Seq<u8>, u64>, gone: Seq<Seq<u8>>) -> Map<Seq<u8>, u64> {
    Map::new(|n: Seq<u8>| seen.contains_key(n) && !gone.contains(n), |n: Seq<u8>| seen[n])
}

/// A peer that was seen at `seen_at` counts as alive for as long as less than the window
/// has passed, and not from then on.
pub proof fn law_liveness_expires(
    cache: ConnectionCache,
    name: Seq<u8>,
    seen_at: u64,
    delta: u64,
    window: u64,
)
    requires
        cache@.contains_key(name),
        cache@[name] == seen_at,
        seen_at + delta <= u64::MAX,
    ensures
        cache.alive(name, (seen_at + delta) as u64, window) <==> delta < window,
{
}

/// Sweeping changes no answer: at the time of the sweep and at any later time, a peer
/// counts as alive after the sweep exactly if it did before.
pub proof fn law_sweep_is_unseen(
    before: ConnectionCache,
    after: ConnectionCache,
    swept_at: u64,
    window: u64,
    name: Seq<u8>,
    now: u64,
)
    requires
        after@ == fresh_part(before@, swept_at, window),
        swept_at <= now,
    ensures
        after.alive(name, now, window) == before.alive(name, now, window),
{
}

} // verus!
