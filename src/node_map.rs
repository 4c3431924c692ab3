//! A bijection between lane IDs and dense graph node indices, in order of insertion.
use crate::network::LaneID;
use vstd::prelude::*;

verus! {

pub struct NodeMap {
    node_to_id: Vec<LaneID>,
    id_to_node: Vec<Option<usize>>,
}

impl View for NodeMap {
    /// The lane standing at each node index.
    type V = Seq<LaneID>;

    closed spec fn view(&self) -> Seq<LaneID> {
        self.node_to_id@
    }
}

impl NodeMap {
    /// Each node's lane is looked up back to that node, and each lookup entry names a node
    /// that holds its lane; so no lane stands at two nodes.
    pub closed spec fn wf(&self) -> bool {
        &&& forall|n: int|
            0 <= n < self.node_to_id@.len() ==> {
                let l = #[trigger] self.node_to_id@[n];
                &&& (l.0 as int) < self.id_to_node@.len()
                &&& self.id_to_node@[l.0 as int] == Some(n as usize)
            }
        &&& forall|l: int|
            0 <= l < self.id_to_node@.len() ==> match #[trigger] self.id_to_node@[l] {
                Some(n) => (n as int) < self.node_to_id@.len() && self.node_to_id@[n as int].0
                    == l,
                None => true,
            }
    }

    pub open spec fn contains(&self, id: LaneID) -> bool {
        exists|n: int| 0 <= n < self@.len() && self@[n] == id
    }

    pub fn new() -> (r: NodeMap)
        ensures
            r.wf(),
            r@ == Seq::<LaneID>::empty(),
    {
        NodeMap { node_to_id: Vec::new(), id_to_node: Vec::new() }
    }

    /// The node of `id`, added after all others when it has none yet.
    pub fn get_or_insert(&mut self, id: LaneID) -> (r: usize)
        requires
            old(self).wf(),
            id.0 < usize::MAX,
            old(self)@.len() < usize::MAX,
        ensures
            final(self).wf(),
            old(self).contains(id) ==> final(self)@ == old(self)@,
            old(self).contains(id) ==> (r as int) < final(self)@.len(),
            old(self).contains(id) ==> final(self)@[r as int] == id,
            !old(self).contains(id) ==> final(self)@ == old(self)@.push(id),
            !old(self).contains(id) ==> r == old(self)@.len(),
    {
        while self.id_to_node.len() <= id.0
            invariant
                self.wf(),
                self@ == old(self)@,
                id.0 < usize::MAX,
            decreases id.0 + 1 - self.id_to_node@.len(),
        {
            self.id_to_node.push(None);
        }
        match self.id_to_node[id.0] {
            Some(n) => n,
            None => {
                proof {
                    assert(!self.contains(id)) by {
                        if self.contains(id) {
                            let n = choose|n: int| 0 <= n < self@.len() && self@[n] == id;
                            assert(self.id_to_node@[self.node_to_id@[n].0 as int] == Some(
                                n as usize,
                            ));
                        }
                    }
                }
                let n = self.node_to_id.len();
                let ghost pre = *self;
                self.node_to_id.push(id);
                self.id_to_node.set(id.0, Some(n));
                proof {
                    assert forall|m: int| 0 <= m < self.node_to_id@.len() implies {
                        let l = #[trigger] self.node_to_id@[m];
                        &&& (l.0 as int) < self.id_to_node@.len()
                        &&& self.id_to_node@[l.0 as int] == Some(m as usize)
                    } by {
                        if m < n {
                            assert(pre.node_to_id@[m] == self.node_to_id@[m]);
                            assert(pre.id_to_node@[pre.node_to_id@[m].0 as int] == Some(
                                m as usize,
                            ));
                        }
                    }
                }
                n
            },
        }
    }

    /// The node of a lane that has one.
    pub fn get(&self, id: LaneID) -> (r: usize)
        requires
            self.wf(),
            self.contains(id),
        ensures
            (r as int) < self@.len(),
            self@[r as int] == id,
    {
        let ghost n = choose|n: int| 0 <= n < self@.len() && self@[n] == id;
        assert(self.id_to_node@[self.node_to_id@[n].0 as int] == Some(n as usize));
        match self.id_to_node[id.0] {
            Some(n) => n,
            None => 0,
        }
    }

    /// The lanes standing at the given nodes.
    pub fn translate(&self, nodes: &Vec<usize>) -> (r: Vec<LaneID>)
        requires
            forall|i: int| 0 <= i < nodes@.len() ==> (#[trigger] nodes@[i] as int) < self@.len(),
        ensures
            r@.len() == nodes@.len(),
            forall|i: int| 0 <= i < nodes@.len() ==> #[trigger] r@[i] == self@[nodes@[i] as int],
    {
        let mut r: Vec<LaneID> = Vec::new();
        let mut i: usize = 0;
        while i < nodes.len()
            invariant
                i <= nodes@.len(),
                r@.len() == i,
                forall|k: int| 0 <= k < nodes@.len() ==> (#[trigger] nodes@[k] as int) < self@.len(),
                forall|k: int| 0 <= k < i ==> #[trigger] r@[k] == self@[nodes@[k] as int],
            decreases nodes@.len() - i,
        {
            r.push(self.node_to_id[nodes[i]]);
            i += 1;
        }
        r
    }
}

} // verus!
