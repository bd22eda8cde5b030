//! Values kept by node id, such as the connection status of each node.
use vstd::prelude::*;

verus! {

/// Values by node id.
pub struct NodeMap<V> {
    node_map: Vec<(String, V)>,
}

pub open spec fn has_node<V>(entries: Seq<(String, V)>, node: Seq<char>) -> bool {
    exists|i: int| 0 <= i < entries.len() && #[trigger] entries[i].0@ == node
}

impl<V: Copy> NodeMap<V> {
    /// Value of each node.
    pub closed spec fn view(&self) -> Map<Seq<char>, V> {
        Map::new(
            |node: Seq<char>| has_node(self.node_map@, node),
            |node: Seq<char>| self.node_map@[choose|i: int| 0 <= i < self.node_map@.len() && #[trigger] self.node_map@[i].0@ == node].1,
        )
    }

    /// Each node is noted once.
    pub closed spec fn wf(&self) -> bool {
        forall|i: int, j: int| 0 <= i < self.node_map@.len() && 0 <= j < self.node_map@.len() && i != j
            ==> #[trigger] self.node_map@[i].0@ != #[trigger] self.node_map@[j].0@
    }

    /// A map of no node.
    pub fn new() -> (res: Self)
        ensures
            res.wf(),
            res@ == Map::<Seq<char>, V>::empty(),
    {
        let res = NodeMap { node_map: Vec::new() };
        proof {
            assert(res@ =~= Map::<Seq<char>, V>::empty());
        }
        res
    }

    fn find(&self, node_id: &String) -> (res: Option<usize>)
        requires
            self.wf(),
        ensures
            match res {
                Some(i) => i < self.node_map@.len() && self.node_map@[i as int].0@ == node_id@,
                None => !has_node(self.node_map@, node_id@),
            },
    {
        let mut i: usize = 0;
        while i < self.node_map.len()
            invariant
                i <= self.node_map@.len(),
                forall|j: int| 0 <= j < i ==> self.node_map@[j].0@ != node_id@,
            decreases self.node_map@.len() - i,
        {
            if self.node_map[i].0 == *node_id {
                return Some(i);
            }
            i = i + 1;
        }
        None
    }

    /// Value of the node, if any.
    pub fn get(&self, node_id: &String) -> (res: Option<V>)
        requires
            self.wf(),
        ensures
            res == (if self@.contains_key(node_id@) { Some(self@[node_id@]) } else { None::<V> }),
    {
        match self.find(node_id) {
            Some(i) => {
                proof {
                    let c = choose|j: int| 0 <= j < self.node_map@.len() && #[trigger] self.node_map@[j].0@ == node_id@;
                    if c != i {
                        assert(self.node_map@[c].0@ != self.node_map@[i as int].0@);
                    }
                }
                Some(self.node_map[i].1)
            },
            None => None,
        }
    }

    /// Sets the value of the node.
    pub fn insert(&mut self, node_id: &String, value: V)
        requires
            old(self).wf(),
        ensures
            final(self).wf(),
            final(self)@ == old(self)@.insert(node_id@, value),
    {
        let ghost before = self.node_map@;
        match self.find(node_id) {
            Some(i) => {
                self.node_map.set(i, (node_id.clone(), value));
                proof {
                    assert forall|node: Seq<char>| #[trigger] has_node(self.node_map@, node) == has_node(before, node) by {
                        if has_node(before, node) {
                            let j = choose|j: int| 0 <= j < before.len() && #[trigger] before[j].0@ == node;
                            if j == i {
                                assert(self.node_map@[i as int].0@ == node);
                            } else {
                                assert(self.node_map@[j].0@ == node);
                            }
                        }
                        if has_node(self.node_map@, node) {
                            let j = choose|j: int| 0 <= j < self.node_map@.len() && #[trigger] self.node_map@[j].0@ == node;
                            if j == i {
                                assert(before[i as int].0@ == node);
                            } else {
                                assert(before[j].0@ == node);
                            }
                        }
                    }
                    assert forall|node: Seq<char>| self@.contains_key(node) implies #[trigger] self@[node]
                        == old(self)@.insert(node_id@, value)[node] by {
                        let c = choose|j: int| 0 <= j < self.node_map@.len() && #[trigger] self.node_map@[j].0@ == node;
                        if node == node_id@ {
                            if c != i {
                                assert(self.node_map@[c].0@ != self.node_map@[i as int].0@);
                            }
                        } else {
                            let c0 = choose|j: int| 0 <= j < before.len() && #[trigger] before[j].0@ == node;
                            assert(c != i);
                            if c0 != c {
                                assert(before[c0].0@ != before[c].0@);
                            }
                        }
                    }
                    assert(self@ =~= old(self)@.insert(node_id@, value));
                }
            },
            None => {
                self.node_map.push((node_id.clone(), value));
                proof {
                    let n = before.len() as int;
                    assert forall|node: Seq<char>| #[trigger] has_node(self.node_map@, node) == (has_node(before, node) || node == node_id@) by {
                        if has_node(before, node) {
                            let j = choose|j: int| 0 <= j < before.len() && #[trigger] before[j].0@ == node;
                            assert(self.node_map@[j].0@ == node);
                        }
                        if node == node_id@ {
                            assert(self.node_map@[n].0@ == node);
                        }
                        if has_node(self.node_map@, node) && node != node_id@ {
                            let j = choose|j: int| 0 <= j < self.node_map@.len() && #[trigger] self.node_map@[j].0@ == node;
                            assert(j != n);
                            assert(before[j].0@ == node);
                        }
                    }
                    assert forall|a: int, b: int| 0 <= a < self.node_map@.len() && 0 <= b < self.node_map@.len() && a != b
                        implies #[trigger] self.node_map@[a].0@ != #[trigger] self.node_map@[b].0@ by {
                        if a == n {
                            assert(!(before[b].0@ == node_id@));
                        } else if b == n {
                            assert(!(before[a].0@ == node_id@));
                        }
                    }
                    assert forall|node: Seq<char>| self@.contains_key(node) implies #[trigger] self@[node]
                        == old(self)@.insert(node_id@, value)[node] by {
                        let c = choose|j: int| 0 <= j < self.node_map@.len() && #[trigger] self.node_map@[j].0@ == node;
                        if node == node_id@ {
                            if c != n {
                                assert(before[c].0@ == node_id@);
                            }
                        } else {
                            let c0 = choose|j: int| 0 <= j < before.len() && #[trigger] before[j].0@ == node;
                            assert(c != n);
                            assert(before[c].0@ == node);
                            if c0 != c {
                                assert(before[c0].0@ != before[c].0@);
                            }
                        }
                    }
                    assert(self@ =~= old(self)@.insert(node_id@, value));
                }
            },
        }
    }
}

} // verus!
