use vstd::prelude::*;

verus! {

/// Neighbour lists of the nodes of a layered graph, one flat buffer per
/// level.
///
/// On level `l`, the node with position `i` (nodes are numbered per level
/// in the order in which `add_node` reached that level) owns the window
/// `neighbors[l][offsets[l][i] .. offsets[l][i] + counts[l][i]]`. A node
/// starts with an empty window at the end of the buffer. Appending to a
/// node writes the slot just after its window: when that slot lies past
/// the end of the buffer the buffer grows, otherwise the slot is
/// overwritten in place, even when it lies in the window of another node.
pub struct NeighborStorage {
    neighbors: Vec<Vec<usize>>,
    offsets: Vec<Vec<usize>>,
    counts: Vec<Vec<usize>>,
}

impl NeighborStorage {
    /// Number of levels (the highest level plus one).
    pub closed spec fn num_levels(&self) -> nat {
        self.neighbors@.len()
    }

    /// Number of nodes registered on `level`.
    pub closed spec fn num_nodes(&self, level: int) -> nat {
        self.offsets@[level]@.len()
    }

    /// The flat neighbour buffer of `level`.
    pub closed spec fn buffer(&self, level: int) -> Seq<usize> {
        self.neighbors@[level]@
    }

    /// Start of the window of `node` on `level`.
    pub closed spec fn offset(&self, level: int, node: int) -> int {
        self.offsets@[level]@[node] as int
    }

    /// Length of the window of `node` on `level`.
    pub closed spec fn count(&self, level: int, node: int) -> int {
        self.counts@[level]@[node] as int
    }

    /// The neighbour list of `node` on `level`: its window of the buffer.
    pub open spec fn neighbor_list(&self, level: int, node: int) -> Seq<usize> {
        self.buffer(level).subrange(self.offset(level, node), self.offset(level, node) + self.count(level, node))
    }

    /// Well-formedness: one buffer, offset list and count list per level,
    /// one offset and one count per node, and every window inside its
    /// level's buffer.
    pub closed spec fn wf(&self) -> bool {
        &&& self.offsets@.len() == self.neighbors@.len()
        &&& self.counts@.len() == self.neighbors@.len()
        &&& forall|l: int| 0 <= l < self.neighbors@.len()
            ==> #[trigger] self.counts@[l]@.len() == self.offsets@[l]@.len()
        &&& forall|l: int, i: int| 0 <= l < self.neighbors@.len() && 0 <= i < self.offsets@[l]@.len()
            ==> #[trigger] self.offsets@[l]@[i] + #[trigger] self.counts@[l]@[i] <= self.neighbors@[l]@.len()
    }

    /// Well-formedness in terms of the public spec functions.
    pub proof fn lemma_wf_windows(&self, level: int, node: int)
        requires
            self.wf(),
            0 <= level < self.num_levels(),
            0 <= node < self.num_nodes(level),
        ensures
            0 <= self.offset(level, node),
            0 <= self.count(level, node),
            self.offset(level, node) + self.count(level, node) <= self.buffer(level).len(),
            self.neighbor_list(level, node).len() == self.count(level, node),
    {
    }

    /// Storage for levels `0 ..= max_level`, with no node on any level.
    pub fn new(max_level: usize) -> (s: Self)
        requires
            max_level < usize::MAX,
        ensures
            s.wf(),
            s.num_levels() == max_level + 1,
            forall|l: int| 0 <= l <= max_level ==> #[trigger] s.num_nodes(l) == 0,
            forall|l: int| 0 <= l <= max_level ==> #[trigger] s.buffer(l) == Seq::<usize>::empty(),
    {
        let mut neighbors: Vec<Vec<usize>> = Vec::new();
        let mut offsets: Vec<Vec<usize>> = Vec::new();
        let mut counts: Vec<Vec<usize>> = Vec::new();
        let levels: usize = max_level + 1;
        let mut i: usize = 0;
        while i < levels
            invariant
                i <= levels,
                neighbors@.len() == i,
                offsets@.len() == i,
                counts@.len() == i,
                forall|l: int| 0 <= l < i ==> #[trigger] neighbors@[l]@ == Seq::<usize>::empty(),
                forall|l: int| 0 <= l < i ==> #[trigger] offsets@[l]@ == Seq::<usize>::empty(),
                forall|l: int| 0 <= l < i ==> #[trigger] counts@[l]@ == Seq::<usize>::empty(),
            decreases levels - i,
        {
            neighbors.push(Vec::new());
            offsets.push(Vec::new());
            counts.push(Vec::new());
            i = i + 1;
        }
        NeighborStorage { neighbors, offsets, counts }
    }

    /// Registers a new node on every level `0 ..= level`, with an empty
    /// window at the end of that level's buffer.
    pub fn add_node(&mut self, level: usize)
        requires
            old(self).wf(),
            level < old(self).num_levels(),
        ensures
            final(self).wf(),
            final(self).num_levels() == old(self).num_levels(),
            forall|l: int| 0 <= l < old(self).num_levels() ==> #[trigger] final(self).buffer(l) == old(self).buffer(l),
            forall|l: int| 0 <= l <= level ==> #[trigger] final(self).num_nodes(l) == old(self).num_nodes(l) + 1,
            forall|l: int| level < l < old(self).num_levels() ==> #[trigger] final(self).num_nodes(l) == old(self).num_nodes(l),
            forall|l: int| 0 <= l <= level ==> {
                &&& #[trigger] final(self).offset(l, old(self).num_nodes(l) as int) == old(self).buffer(l).len()
                &&& final(self).count(l, old(self).num_nodes(l) as int) == 0
                &&& final(self).neighbor_list(l, old(self).num_nodes(l) as int) == Seq::<usize>::empty()
            },
            forall|l: int, i: int| 0 <= l < old(self).num_levels() && 0 <= i < old(self).num_nodes(l) ==> {
                &&& #[trigger] final(self).offset(l, i) == old(self).offset(l, i)
                &&& final(self).count(l, i) == old(self).count(l, i)
            },
            forall|l: int, i: int| 0 <= l < old(self).num_levels() && 0 <= i < old(self).num_nodes(l) ==>
                #[trigger] final(self).neighbor_list(l, i) == old(self).neighbor_list(l, i),
    {
        let ghost pre = *self;
        let n_levels = self.neighbors.len();
        let mut l: usize = 0;
        while l <= level
            invariant
                l <= level + 1,
                level < n_levels,
                n_levels == pre.num_levels(),
                self.wf(),
                self.num_levels() == pre.num_levels(),
                forall|k: int| 0 <= k < pre.num_levels() ==> #[trigger] self.buffer(k) == pre.buffer(k),
                forall|k: int| 0 <= k < l ==> #[trigger] self.num_nodes(k) == pre.num_nodes(k) + 1,
                forall|k: int| l <= k < pre.num_levels() ==> #[trigger] self.num_nodes(k) == pre.num_nodes(k),
                forall|k: int| 0 <= k < l ==> {
                    &&& #[trigger] self.offset(k, pre.num_nodes(k) as int) == pre.buffer(k).len()
                    &&& self.count(k, pre.num_nodes(k) as int) == 0
                },
                forall|k: int, i: int| 0 <= k < pre.num_levels() && 0 <= i < pre.num_nodes(k) ==> {
                    &&& #[trigger] self.offset(k, i) == pre.offset(k, i)
                    &&& self.count(k, i) == pre.count(k, i)
                },
            decreases level + 1 - l,
        {
            let start = self.neighbors[l].len();
            let ghost mid = *self;
            self.offsets[l].push(start);
            self.counts[l].push(0);
            proof {
                assert(self.neighbors == mid.neighbors);
                assert forall|k: int| 0 <= k < pre.num_levels() implies #[trigger] self.buffer(k) == pre.buffer(k) by {
                    assert(mid.buffer(k) == pre.buffer(k));
                }
                assert forall|k: int| 0 <= k < l + 1 implies #[trigger] self.num_nodes(k) == pre.num_nodes(k) + 1 by {
                    if k < l {
                        assert(mid.num_nodes(k) == pre.num_nodes(k) + 1);
                    } else {
                        assert(mid.num_nodes(k) == pre.num_nodes(k));
                    }
                }
                assert forall|k: int| l + 1 <= k < pre.num_levels() implies #[trigger] self.num_nodes(k) == pre.num_nodes(k) by {
                    assert(mid.num_nodes(k) == pre.num_nodes(k));
                }
                assert forall|k: int| 0 <= k < l + 1 implies {
                    &&& #[trigger] self.offset(k, pre.num_nodes(k) as int) == pre.buffer(k).len()
                    &&& self.count(k, pre.num_nodes(k) as int) == 0
                } by {
                    if k < l {
                        assert(mid.offset(k, pre.num_nodes(k) as int) == pre.buffer(k).len());
                        assert(mid.num_nodes(k) == pre.num_nodes(k) + 1);
                    } else {
                        assert(mid.num_nodes(k) == pre.num_nodes(k));
                        assert(mid.buffer(k) == pre.buffer(k));
                    }
                }
                assert forall|k: int, i: int| 0 <= k < pre.num_levels() && 0 <= i < pre.num_nodes(k) implies {
                    &&& #[trigger] self.offset(k, i) == pre.offset(k, i)
                    &&& self.count(k, i) == pre.count(k, i)
                } by {
                    assert(mid.offset(k, i) == pre.offset(k, i));
                    assert(mid.num_nodes(k) >= pre.num_nodes(k));
                }
            }
            l = l + 1;
        }
        proof {
            assert forall|k: int| 0 <= k <= level implies
                #[trigger] self.neighbor_list(k, pre.num_nodes(k) as int) == Seq::<usize>::empty() by {
                assert(self.neighbor_list(k, pre.num_nodes(k) as int).len() == 0);
            }
            assert forall|k: int, i: int| 0 <= k < pre.num_levels() && 0 <= i < pre.num_nodes(k) implies
                #[trigger] self.neighbor_list(k, i) == pre.neighbor_list(k, i) by {
                assert(self.buffer(k) == pre.buffer(k));
                assert(self.offset(k, i) == pre.offset(k, i));
            }
        }
    }

    /// The neighbour list of `node_id` on `level`.
    pub fn get_neighbors(&self, level: usize, node_id: usize) -> (r: &[usize])
        requires
            self.wf(),
            level < self.num_levels(),
            node_id < self.num_nodes(level as int),
        ensures
            r@ == self.neighbor_list(level as int, node_id as int),
    {
        let start = self.offsets[level][node_id];
        let count = self.counts[level][node_id];
        let buffer_len = self.neighbors[level].len();
        proof {
            self.lemma_wf_windows(level as int, node_id as int);
            assert(start + count <= buffer_len);
        }
        &self.neighbors[level][start..start + count]
    }

    /// The buffer slot that the next append to `node` on `level` writes:
    /// the one just after its window.
    pub open spec fn next_slot(&self, level: int, node: int) -> int {
        self.offset(level, node) + self.count(level, node)
    }

    /// Appends `neighbor` to the neighbour list of `node_id` on `level`.
    ///
    /// The value goes to `next_slot(level, node_id)`: pushed when that slot
    /// is the end of the buffer, written in place otherwise. A node whose
    /// window covers that slot sees its entry there replaced.
    pub fn add_neighbor(&mut self, level: usize, node_id: usize, neighbor: usize)
        requires
            old(self).wf(),
            level < old(self).num_levels(),
            node_id < old(self).num_nodes(level as int),
        ensures
            final(self).wf(),
            final(self).num_levels() == old(self).num_levels(),
            forall|l: int| 0 <= l < old(self).num_levels() ==> #[trigger] final(self).num_nodes(l) == old(self).num_nodes(l),
            forall|l: int, i: int| 0 <= l < old(self).num_levels() && 0 <= i < old(self).num_nodes(l) ==>
                #[trigger] final(self).offset(l, i) == old(self).offset(l, i),
            forall|l: int, i: int| 0 <= l < old(self).num_levels() && 0 <= i < old(self).num_nodes(l) ==>
                #[trigger] final(self).count(l, i) == if l == level && i == node_id {
                    old(self).count(l, i) + 1
                } else {
                    old(self).count(l, i)
                },
            forall|l: int| 0 <= l < old(self).num_levels() && l != level ==> #[trigger] final(self).buffer(l) == old(self).buffer(l),
            final(self).buffer(level as int) == if old(self).next_slot(level as int, node_id as int) == old(self).buffer(level as int).len() {
                old(self).buffer(level as int).push(neighbor)
            } else {
                old(self).buffer(level as int).update(old(self).next_slot(level as int, node_id as int), neighbor)
            },
            final(self).neighbor_list(level as int, node_id as int)
                == old(self).neighbor_list(level as int, node_id as int).push(neighbor),
            forall|l: int, i: int| 0 <= l < old(self).num_levels() && 0 <= i < old(self).num_nodes(l) && !(l == level && i == node_id) ==>
                #[trigger] final(self).neighbor_list(l, i) == if l == level && old(self).offset(l, i) <= old(self).next_slot(
                    level as int, node_id as int) < old(self).next_slot(l, i) {
                    old(self).neighbor_list(l, i).update(
                        old(self).next_slot(level as int, node_id as int) - old(self).offset(l, i), neighbor)
                } else {
                    old(self).neighbor_list(l, i)
                },
            old(self).next_slot(level as int, node_id as int) == old(self).buffer(level as int).len() ==>
                forall|l: int, i: int| 0 <= l < old(self).num_levels() && 0 <= i < old(self).num_nodes(l) && !(l == level && i == node_id) ==>
                    #[trigger] final(self).neighbor_list(l, i) == old(self).neighbor_list(l, i),
    {
        let offset = self.offsets[level][node_id];
        let count = self.counts[level][node_id];
        let ghost pre = *self;
        proof {
            self.lemma_wf_windows(level as int, node_id as int);
        }
        let len = self.neighbors[level].len();
        if offset + count >= len {
            self.neighbors[level].push(neighbor);
        } else {
            self.neighbors[level][offset + count] = neighbor;
        }
        let new_len = self.neighbors[level].len();
        assert(count + 1 <= new_len);
        self.counts[level][node_id] = count + 1;
        proof {
            assert forall|l: int| 0 <= l < pre.num_levels() implies #[trigger] self.num_nodes(l) == pre.num_nodes(l) by {
                assert(self.offsets@[l] == pre.offsets@[l]);
                if l == level {
                    assert(self.counts@[l]@.len() == pre.counts@[l]@.len());
                }
            }
            assert forall|l: int, i: int| 0 <= l < pre.num_levels() && 0 <= i < pre.num_nodes(l) implies
                #[trigger] self.count(l, i) == if l == level && i == node_id { pre.count(l, i) + 1 } else { pre.count(l, i) } by {
                if l != level {
                    assert(self.counts@[l] == pre.counts@[l]);
                }
            }
            assert forall|l: int, i: int| 0 <= l < self.neighbors@.len() && 0 <= i < self.offsets@[l]@.len()
                implies #[trigger] self.offsets@[l]@[i] + #[trigger] self.counts@[l]@[i] <= self.neighbors@[l]@.len() by {
                assert(pre.offsets@[l]@[i] + pre.counts@[l]@[i] <= pre.neighbors@[l]@.len());
                if l != level {
                    assert(self.counts@[l] == pre.counts@[l]);
                    assert(self.neighbors@[l] == pre.neighbors@[l]);
                }
            }
            assert forall|l: int| 0 <= l < self.neighbors@.len() implies #[trigger] self.counts@[l]@.len() == self.offsets@[l]@.len() by {
                assert(pre.counts@[l]@.len() == pre.offsets@[l]@.len());
            }
            assert(self.neighbor_list(level as int, node_id as int)
                =~= pre.neighbor_list(level as int, node_id as int).push(neighbor));
            let slot = pre.next_slot(level as int, node_id as int);
            assert forall|l: int, i: int| 0 <= l < pre.num_levels() && 0 <= i < pre.num_nodes(l) && !(l == level && i == node_id)
                implies #[trigger] self.neighbor_list(l, i) == if l == level && pre.offset(l, i) <= slot < pre.next_slot(l, i) {
                    pre.neighbor_list(l, i).update(slot - pre.offset(l, i), neighbor)
                } else {
                    pre.neighbor_list(l, i)
                } by {
                pre.lemma_wf_windows(l, i);
                assert(self.offset(l, i) == pre.offset(l, i));
                assert(self.count(l, i) == pre.count(l, i));
                if l == level && pre.offset(l, i) <= slot < pre.next_slot(l, i) {
                    assert(self.neighbor_list(l, i) =~= pre.neighbor_list(l, i).update(slot - pre.offset(l, i), neighbor));
                } else if l == level {
                    assert(self.neighbor_list(l, i) =~= pre.neighbor_list(l, i));
                } else {
                    assert(self.neighbors@[l] == pre.neighbors@[l]);
                    assert(self.neighbor_list(l, i) =~= pre.neighbor_list(l, i));
                }
            }
        }
    }
}

} // verus!
