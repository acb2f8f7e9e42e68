//! What a node believes each peer already holds.

use crate::message::names;
use std::collections::HashSet;
use vstd::prelude::*;

verus! {

/// The values that one peer is believed to hold.
#[derive(Debug)]
pub struct PeerKnowledge {
    peer: String,
    values: HashSet<usize>,
}

/// For each peer with an entry, the set of values it is believed to hold.
/// No peer has two entries.
#[derive(Debug)]
pub struct Knowledge {
    entries: Vec<PeerKnowledge>,
}

/// The values that `peer` is believed to hold: what the table records for it,
/// and nothing for a peer without an entry.
pub open spec fn believed(table: Map<Seq<char>, Set<usize>>, peer: Seq<char>) -> Set<usize> {
    if table.contains_key(peer) {
        table[peer]
    } else {
        Set::empty()
    }
}

/// The table after `peer` is found to hold `values`: they join what was
/// believed of it; other peers keep their entries.
pub open spec fn learned(table: Map<Seq<char>, Set<usize>>, peer: Seq<char>, values: Set<usize>)
    -> Map<Seq<char>, Set<usize>> {
    table.insert(peer, believed(table, peer).union(values))
}

/// The table that holds an empty entry for each of `peers` and no other.
pub open spec fn blank(peers: Seq<Seq<char>>) -> Map<Seq<char>, Set<usize>> {
    Map::new(|p: Seq<char>| peers.contains(p), |p: Seq<char>| Set::<usize>::empty())
}

impl Knowledge {
    /// No peer occurs twice.
    pub closed spec fn wf(&self) -> bool {
        forall|i: int, j: int|
            0 <= i < j < self.entries.len() ==> self.entries[i].peer@ != self.entries[j].peer@
    }

    spec fn position(&self, peer: Seq<char>, i: int) -> bool {
        0 <= i < self.entries.len() && self.entries[i].peer@ == peer
    }

    /// The table as a map from peer to the set of values believed of it.
    pub closed spec fn view(&self) -> Map<Seq<char>, Set<usize>> {
        Map::new(
            |p: Seq<char>| exists|i: int| self.position(p, i),
            |p: Seq<char>| self.entries[choose|i: int| self.position(p, i)].values@,
        )
    }

    proof fn lemma_entry(&self, i: int)
        requires
            self.wf(),
            0 <= i < self.entries.len(),
        ensures
            self@.contains_key(self.entries[i].peer@),
            self@[self.entries[i].peer@] == self.entries[i].values@,
    {
        let p = self.entries[i].peer@;
        assert(self.position(p, i));
        let j = choose|j: int| self.position(p, j);
        assert(self.position(p, j));
        assert(i == j);
    }

    /// A table without entries.
    pub fn new() -> (table: Knowledge)
        ensures
            table.wf(),
            table@ == Map::<Seq<char>, Set<usize>>::empty(),
    {
        let table = Knowledge { entries: Vec::new() };
        assert(table@ =~= Map::<Seq<char>, Set<usize>>::empty());
        table
    }

    fn find(&self, peer: &String) -> (at: Option<usize>)
        requires
            self.wf(),
        ensures
            match at {
                Some(i) => self.position(peer@, i as int),
                None => !self@.contains_key(peer@) && forall|j: int| !self.position(peer@, j),
            },
    {
        let mut i: usize = 0;
        while i < self.entries.len()
            invariant
                i <= self.entries.len(),
                forall|j: int| 0 <= j < i ==> self.entries[j].peer@ != peer@,
            decreases self.entries.len() - i,
        {
            if self.entries[i].peer == *peer {
                return Some(i);
            }
            i += 1;
        }
        assert(forall|j: int| !self.position(peer@, j));
        None
    }

    /// The set of values believed of `peer`, if it has an entry.
    pub fn believed_of(&self, peer: &String) -> (values: Option<&HashSet<usize>>)
        requires
            self.wf(),
        ensures
            match values {
                Some(set) => self@.contains_key(peer@) && set@ == self@[peer@],
                None => !self@.contains_key(peer@),
            },
    {
        match self.find(peer) {
            Some(i) => {
                proof {
                    self.lemma_entry(i as int);
                }
                Some(&self.entries[i].values)
            },
            None => None,
        }
    }

    /// Records that `peer` holds each of `values`, giving it an entry if it
    /// had none.
    pub fn learn(&mut self, peer: &String, values: &Vec<usize>)
        requires
            old(self).wf(),
        ensures
            final(self).wf(),
            final(self)@ == learned(old(self)@, peer@, values@.to_set()),
    {
        let at: usize = match self.find(peer) {
            Some(i) => i,
            None => {
                self.entries.push(PeerKnowledge { peer: peer.clone(), values: HashSet::new() });
                self.entries.len() - 1
            },
        };
        let ghost before = old(self)@;
        assert(self.wf()) by {
            assert forall|i: int, j: int| 0 <= i < j < self.entries.len() implies self.entries[i].peer@
                != self.entries[j].peer@ by {
                if j == old(self).entries.len() {
                    assert(!old(self).position(peer@, i));
                }
            }
        }
        assert(self.position(peer@, at as int));
        proof {
            self.lemma_entry(at as int);
        }
        assert(self@ =~= before.insert(peer@, believed(before, peer@))) by {
            assert forall|p: Seq<char>| self@.contains_key(p) <==> (p == peer@
                || before.contains_key(p)) by {
                if self@.contains_key(p) {
                    let j = choose|j: int| self.position(p, j);
                    if j < old(self).entries.len() {
                        assert(old(self).position(p, j));
                    }
                }
                if before.contains_key(p) {
                    let j = choose|j: int| old(self).position(p, j);
                    assert(self.position(p, j));
                }
            }
            assert forall|p: Seq<char>| before.contains_key(p) implies self@[p] == before[p] by {
                let j = choose|j: int| old(self).position(p, j);
                assert(self.position(p, j));
                self.lemma_entry(j);
                old(self).lemma_entry(j);
            }
        }
        let ghost start = *self;
        let mut k: usize = 0;
        while k < values.len()
            invariant
                k <= values.len(),
                start.wf(),
                at < self.entries.len(),
                self.entries.len() == start.entries.len(),
                forall|j: int|
                    0 <= j < self.entries.len() ==> self.entries[j].peer@ == start.entries[j].peer@,
                forall|j: int|
                    0 <= j < self.entries.len() && j != at ==> self.entries[j].values@
                        == start.entries[j].values@,
                self.entries[at as int].values@ == start.entries[at as int].values@.union(
                    values@.take(k as int).to_set(),
                ),
            decreases values.len() - k,
        {
            let v = values[k];
            self.entries[at].values.insert(v);
            proof {
                assert(values@.take(k + 1) =~= values@.take(k as int).push(v));
                values@.take(k as int).lemma_push_to_set_commute(v);
            }
            k += 1;
        }
        proof {
            assert(values@.take(values.len() as int) =~= values@);
            assert(self.wf()) by {
                assert forall|i: int, j: int| 0 <= i < j < self.entries.len() implies self.entries[i].peer@
                    != self.entries[j].peer@ by {
                    assert(start.entries[i].peer@ != start.entries[j].peer@);
                }
            }
            assert(final(self)@ =~= learned(before, peer@, values@.to_set())) by {
                assert forall|p: Seq<char>| self@.contains_key(p) <==> start@.contains_key(p) by {
                    if self@.contains_key(p) {
                        let j = choose|j: int| self.position(p, j);
                        assert(start.position(p, j));
                    }
                    if start@.contains_key(p) {
                        let j = choose|j: int| start.position(p, j);
                        assert(self.position(p, j));
                    }
                }
                assert forall|p: Seq<char>| self@.contains_key(p) implies self@[p] == learned(
                    before,
                    peer@,
                    values@.to_set(),
                )[p] by {
                    let j = choose|j: int| self.position(p, j);
                    assert(start.position(p, j));
                    self.lemma_entry(j);
                    start.lemma_entry(j);
                }
            }
        }
    }

    /// Forgets everything and gives each of `peers` an empty entry.
    pub fn reset(&mut self, peers: &Vec<String>)
        ensures
            final(self).wf(),
            final(self)@ == blank(names(peers@)),
    {
        self.entries = Vec::new();
        let mut k: usize = 0;
        assert(self@ =~= blank(names(peers@).take(0)));
        while k < peers.len()
            invariant
                k <= peers.len(),
                self.wf(),
                self@ == blank(names(peers@).take(k as int)),
                forall|j: int| 0 <= j < self.entries.len() ==> self.entries[j].values@ == Set::<usize>::empty(),
            decreases peers.len() - k,
        {
            let ghost before = *self;
            let ghost prefix = names(peers@).take(k as int);
            let ghost next = names(peers@).take(k + 1);
            assert(next =~= prefix.push(peers@[k as int]@));
            match self.find(&peers[k]) {
                Some(_) => {},
                None => {
                    self.entries.push(
                        PeerKnowledge { peer: peers[k].clone(), values: HashSet::new() },
                    );
                    assert(self.position(peers@[k as int]@, self.entries.len() - 1));
                },
            }
            proof {
                assert(self.wf()) by {
                    assert forall|i: int, j: int|
                        0 <= i < j < self.entries.len() implies self.entries[i].peer@
                        != self.entries[j].peer@ by {
                        if j == before.entries.len() {
                            assert(!before.position(peers@[k as int]@, i));
                        }
                    }
                }
                assert forall|p: Seq<char>| self@.contains_key(p) <==> next.contains(p) by {
                    if self@.contains_key(p) {
                        let j = choose|j: int| self.position(p, j);
                        if j < before.entries.len() {
                            assert(before.position(p, j));
                            assert(before@.contains_key(p));
                            assert(prefix.contains(p));
                            let idx = choose|idx: int| 0 <= idx < prefix.len() && prefix[idx] == p;
                            assert(next[idx] == p);
                        } else {
                            assert(next[k as int] == p);
                        }
                    }
                    if next.contains(p) {
                        let idx = choose|idx: int| 0 <= idx < next.len() && next[idx] == p;
                        if idx < k {
                            assert(prefix[idx] == p);
                            assert(before@.contains_key(p));
                            let j = choose|j: int| before.position(p, j);
                            assert(self.position(p, j));
                        } else {
                            assert(p == peers@[k as int]@);
                            if before@.contains_key(p) {
                                let j = choose|j: int| before.position(p, j);
                                assert(self.position(p, j));
                            }
                        }
                    }
                }
                assert forall|p: Seq<char>| self@.contains_key(p) implies self@[p] == Set::<
                    usize,
                >::empty() by {
                    let j = choose|j: int| self.position(p, j);
                    self.lemma_entry(j);
                }
                assert(self@ =~= blank(next));
            }
            k += 1;
        }
        assert(names(peers@).take(peers.len() as int) =~= names(peers@));
    }
}

} // verus!
