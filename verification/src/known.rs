use std::collections::HashSet;
use vstd::prelude::*;
use crate::gossip::extend_set;

verus! {

/// What one cluster member is known to have.
#[derive(Debug)]
struct PeerKnowledge {
    peer: String,
    seen: HashSet<u64>,
}

/// For each cluster member, an approximation from below of the values that
/// member has: the values it has itself sent to this node. The members are
/// fixed when the table is made; their sets only grow.
#[derive(Debug)]
pub struct KnownTable {
    entries: Vec<PeerKnowledge>,
}

impl View for KnownTable {
    type V = Map<Seq<char>, Set<u64>>;

    closed spec fn view(&self) -> Map<Seq<char>, Set<u64>> {
        table_of(self.entries@)
    }
}

spec fn has_peer(entries: Seq<PeerKnowledge>, name: Seq<char>) -> bool {
    exists|i: int| 0 <= i < entries.len() && #[trigger] entries[i].peer@ == name
}

spec fn slot_of(entries: Seq<PeerKnowledge>, name: Seq<char>) -> int {
    choose|i: int| 0 <= i < entries.len() && #[trigger] entries[i].peer@ == name
}

spec fn table_of(entries: Seq<PeerKnowledge>) -> Map<Seq<char>, Set<u64>> {
    Map::new(
        |name: Seq<char>| has_peer(entries, name),
        |name: Seq<char>| entries[slot_of(entries, name)].seen@,
    )
}

spec fn distinct(entries: Seq<PeerKnowledge>) -> bool {
    forall|i: int, j: int|
        0 <= i < j < entries.len() ==> #[trigger] entries[i].peer@ != #[trigger] entries[j].peer@
}

proof fn lemma_slot(entries: Seq<PeerKnowledge>, i: int)
    requires
        distinct(entries),
        0 <= i < entries.len(),
    ensures
        has_peer(entries, entries[i].peer@),
        slot_of(entries, entries[i].peer@) == i,
        table_of(entries)[entries[i].peer@] == entries[i].seen@,
{
    let name = entries[i].peer@;
    assert(entries[i].peer@ == name);
    let k = slot_of(entries, name);
    assert(0 <= k < entries.len() && entries[k].peer@ == name);
    if k < i {
        assert(entries[k].peer@ != entries[i].peer@);
    }
    if i < k {
        assert(entries[i].peer@ != entries[k].peer@);
    }
}

impl KnownTable {
    #[verifier::type_invariant]
    spec fn peers_distinct(self) -> bool {
        distinct(self.entries@)
    }

    /// A table with one empty entry for each of `members`.
    pub fn new(members: &Vec<String>) -> (table: KnownTable)
        ensures
            table@.dom() == members.deep_view().to_set(),
            forall|name: Seq<char>| #[trigger] table@.contains_key(name) ==> table@[name].is_empty(),
    {
        let mut table = KnownTable { entries: Vec::new() };
        assert(table@.dom() =~= members.deep_view().take(0).to_set());
        let mut i: usize = 0;
        while i < members.len()
            invariant
                i <= members.len(),
                table@.dom() == members.deep_view().take(i as int).to_set(),
                forall|name: Seq<char>| #[trigger]
                    table@.contains_key(name) ==> table@[name].is_empty(),
            decreases members.len() - i,
        {
            let ghost before = table;
            table.enroll(&members[i]);
            proof {
                let names = members.deep_view();
                assert(names.take(i + 1) =~= names.take(i as int).push(members[i as int]@));
                names.take(i as int).lemma_push_to_set_commute(members[i as int]@);
                assert(table@.dom() =~= before@.dom().insert(members[i as int]@));
            }
            i += 1;
        }
        assert(members.deep_view().take(i as int) =~= members.deep_view());
        table
    }

    /// Adds an empty entry for `peer` unless it has one.
    fn enroll(&mut self, peer: &String)
        ensures
            final(self)@ == if old(self)@.contains_key(peer@) {
                old(self)@
            } else {
                old(self)@.insert(peer@, Set::empty())
            },
    {
        proof {
            use_type_invariant(&*self);
        }
        if self.position(peer).is_none() {
            let ghost before = self.entries@;
            let mut entries: Vec<PeerKnowledge> = Vec::new();
            std::mem::swap(&mut entries, &mut self.entries);
            entries.push(PeerKnowledge { peer: peer.clone(), seen: HashSet::new() });
            proof {
                let after = entries@;
                assert forall|i: int, j: int| 0 <= i < j < after.len() implies after[i].peer@
                    != after[j].peer@ by {
                    if j == before.len() {
                        assert(before[i].peer@ == after[i].peer@);
                        assert(has_peer(before, before[i].peer@));
                    } else {
                        assert(before[i].peer@ != before[j].peer@);
                    }
                }
                assert(table_of(after) =~= table_of(before).insert(peer@, Set::empty())) by {
                    assert forall|name: Seq<char>| has_peer(after, name) <==> (has_peer(
                        before,
                        name,
                    ) || name == peer@) by {
                        if has_peer(after, name) {
                            let k = slot_of(after, name);
                            if k < before.len() {
                                assert(before[k].peer@ == name);
                            }
                        }
                        if has_peer(before, name) {
                            let k = slot_of(before, name);
                            assert(after[k].peer@ == name);
                        }
                        if name == peer@ {
                            assert(after[before.len() as int].peer@ == name);
                        }
                    }
                    assert forall|name: Seq<char>| has_peer(after, name) implies table_of(
                        after,
                    )[name] == table_of(before).insert(peer@, Set::empty())[name] by {
                        let k = slot_of(after, name);
                        lemma_slot(after, k);
                        if k < before.len() {
                            assert(before[k].peer@ == name);
                            lemma_slot(before, k);
                        }
                    }
                }
            }
            self.entries = entries;
        }
    }

    /// Where `peer` stands in the table, if it is a member.
    fn position(&self, peer: &String) -> (r: Option<usize>)
        ensures
            match r {
                Some(i) => i < self.entries.len() && self.entries[i as int].peer@ == peer@,
                None => !has_peer(self.entries@, peer@),
            },
    {
        let mut i: usize = 0;
        while i < self.entries.len()
            invariant
                i <= self.entries.len(),
                forall|j: int| 0 <= j < i ==> #[trigger] self.entries[j].peer@ != peer@,
            decreases self.entries.len() - i,
        {
            if self.entries[i].peer == *peer {
                return Some(i);
            }
            i += 1;
        }
        None
    }

    /// Whether `peer` is a member.
    pub fn contains(&self, peer: &String) -> (r: bool)
        ensures
            r == self@.contains_key(peer@),
    {
        self.position(peer).is_some()
    }

    /// What `peer` is known to have; `None` if it is no member.
    pub fn get(&self, peer: &String) -> (r: Option<&HashSet<u64>>)
        ensures
            match r {
                Some(seen) => self@.contains_key(peer@) && seen@ == self@[peer@],
                None => !self@.contains_key(peer@),
            },
    {
        proof {
            use_type_invariant(self);
        }
        match self.position(peer) {
            Some(i) => {
                proof {
                    lemma_slot(self.entries@, i as int);
                }
                Some(&self.entries[i].seen)
            },
            None => None,
        }
    }

    /// Notes that `peer` has `values`, on top of what it was known to have.
    /// Returns whether `peer` is a member; if it is none, nothing changes.
    pub fn record(&mut self, peer: &String, values: &HashSet<u64>) -> (member: bool)
        ensures
            member == old(self)@.contains_key(peer@),
            final(self)@ == if member {
                old(self)@.insert(peer@, old(self)@[peer@].union(values@))
            } else {
                old(self)@
            },
    {
        proof {
            use_type_invariant(&*self);
        }
        match self.position(peer) {
            None => false,
            Some(i) => {
                let ghost before = self.entries@;
                let mut entries: Vec<PeerKnowledge> = Vec::new();
                std::mem::swap(&mut entries, &mut self.entries);
                extend_set(&mut entries[i].seen, values);
                proof {
                    let after = entries@;
                    assert(after.len() == before.len());
                    assert forall|k: int| 0 <= k < after.len() implies #[trigger] after[k].peer
                        == before[k].peer by {}
                    assert(distinct(after)) by {
                        assert forall|a: int, b: int| 0 <= a < b < after.len() implies after[a].peer@
                            != after[b].peer@ by {
                            assert(before[a].peer@ != before[b].peer@);
                        }
                    }
                    lemma_slot(before, i as int);
                    assert(table_of(after) =~= table_of(before).insert(
                        peer@,
                        table_of(before)[peer@].union(values@),
                    )) by {
                        assert forall|name: Seq<char>| has_peer(after, name) <==> has_peer(
                            before,
                            name,
                        ) by {
                            if has_peer(after, name) {
                                let k = slot_of(after, name);
                                assert(before[k].peer@ == name);
                            }
                            if has_peer(before, name) {
                                let k = slot_of(before, name);
                                assert(after[k].peer@ == name);
                            }
                        }
                        assert forall|name: Seq<char>| has_peer(after, name) implies table_of(
                            after,
                        )[name] == table_of(before).insert(
                            peer@,
                            table_of(before)[peer@].union(values@),
                        )[name] by {
                            let k = slot_of(after, name);
                            lemma_slot(after, k);
                            assert(before[k].peer@ == name);
                            lemma_slot(before, k);
                        }
                    }
                }
                self.entries = entries;
                true
            },
        }
    }
}

} // verus!
