//! Which nodes of a graph are to run, and in what order.

use vstd::prelude::*;

use crate::access::{KeyModel, NodeId, ResourceKey};
use crate::dirty;
use crate::dirty::{Drained, DrainedModel};

verus! {

/// The node whose output a key is.
pub open spec fn node_of(d: DrainedModel) -> Option<NodeId> {
    match d.key {
        KeyModel::NodeOutput { node, .. } => Some(node),
        _ => None,
    }
}

/// The nodes whose outputs keys are.
pub open spec fn nodes_of(ds: Seq<DrainedModel>) -> Seq<NodeId> {
    ds.map_values(|d: DrainedModel| node_of(d)->0)
}

/// A key has a node run: it is an output of one of the `n` nodes, and one that does not run yet.
pub open spec fn schedules(d: DrainedModel, n: nat, to_run: Seq<NodeId>) -> bool {
    match node_of(d) {
        Some(node) => node.0 < n && !to_run.contains(node),
        None => false,
    }
}

/// Of drained keys those that have a node run: for each node the first of its keys.
pub open spec fn chosen(keys: Seq<DrainedModel>, n: nat, to_run: Seq<NodeId>) -> Seq<DrainedModel>
    decreases keys.len(),
{
    if keys.len() == 0 {
        seq![]
    } else {
        let rest = chosen(keys.drop_last(), n, to_run);
        if schedules(keys.last(), n, to_run + nodes_of(rest)) {
            rest.push(keys.last())
        } else {
            rest
        }
    }
}

/// The nodes that drained keys have run.
pub open spec fn planned(keys: Seq<DrainedModel>, n: nat) -> Seq<NodeId> {
    nodes_of(chosen(keys, n, seq![]))
}

/// Every key that has a node run is an output of one of the nodes.
pub proof fn lemma_chosen(keys: Seq<DrainedModel>, n: nat, to_run: Seq<NodeId>)
    ensures
        forall|i: int|
            0 <= i < chosen(keys, n, to_run).len() ==> {
                let d = #[trigger] chosen(keys, n, to_run)[i];
                node_of(d) is Some && (node_of(d)->0).0 < n && keys.contains(d)
                    && !to_run.contains(node_of(d)->0)
            },
        forall|i: int, j: int|
            0 <= i < j < chosen(keys, n, to_run).len() ==> node_of(
                #[trigger] chosen(keys, n, to_run)[i],
            ) != node_of(#[trigger] chosen(keys, n, to_run)[j]),
    decreases keys.len(),
{
    if keys.len() > 0 {
        let rest = chosen(keys.drop_last(), n, to_run);
        lemma_chosen(keys.drop_last(), n, to_run);
        assert(keys.contains(keys.last()));
        assert forall|d: DrainedModel| keys.drop_last().contains(d) implies keys.contains(d) by {
            let i = choose|i: int| 0 <= i < keys.drop_last().len() && keys.drop_last()[i] == d;
            assert(keys[i] == d);
        }
        if schedules(keys.last(), n, to_run + nodes_of(rest)) {
            let node = node_of(keys.last())->0;
            assert(!to_run.contains(node)) by {
                if to_run.contains(node) {
                    let i = choose|i: int| 0 <= i < to_run.len() && to_run[i] == node;
                    assert((to_run + nodes_of(rest))[i] == node);
                }
            }
            assert forall|i: int| 0 <= i < rest.len() implies node_of(#[trigger] rest[i])
                != node_of(keys.last()) by {
                assert((to_run + nodes_of(rest))[to_run.len() + i] == node_of(rest[i])->0);
            }
        }
    }
}

/// The keys of two drains have nodes run one after the other.
pub proof fn lemma_chosen_concat(
    a: Seq<DrainedModel>,
    b: Seq<DrainedModel>,
    n: nat,
    to_run: Seq<NodeId>,
)
    ensures
        chosen(a + b, n, to_run) == chosen(a, n, to_run) + chosen(
            b,
            n,
            to_run + nodes_of(chosen(a, n, to_run)),
        ),
    decreases b.len(),
{
    let first = chosen(a, n, to_run);
    let then_run = to_run + nodes_of(first);
    if b.len() == 0 {
        assert(a + b =~= a);
        assert(first + chosen(b, n, then_run) =~= first);
    } else {
        assert((a + b).drop_last() =~= a + b.drop_last());
        assert((a + b).last() == b.last());
        lemma_chosen_concat(a, b.drop_last(), n, to_run);
        let rest = chosen(b.drop_last(), n, then_run);
        assert(nodes_of(first + rest) =~= nodes_of(first) + nodes_of(rest));
        assert(to_run + nodes_of(first + rest) =~= then_run + nodes_of(rest));
        assert(first + rest.push(b.last()) =~= (first + rest).push(b.last()));
    }
}

/// A plan holds no node twice, and only nodes of the graph.
pub proof fn law_plan_runs_each_node_once(keys: Seq<DrainedModel>, n: nat)
    ensures
        forall|i: int| 0 <= i < planned(keys, n).len() ==> (#[trigger] planned(keys, n)[i]).0 < n,
        forall|i: int, j: int|
            0 <= i < j < planned(keys, n).len() ==> #[trigger] planned(keys, n)[i]
                != #[trigger] planned(keys, n)[j],
{
    let c = chosen(keys, n, seq![]);
    lemma_chosen(keys, n, seq![]);
    assert forall|i: int| 0 <= i < planned(keys, n).len() implies (#[trigger] planned(keys, n)[i]).0
        < n by {
        assert(planned(keys, n)[i] == node_of(c[i])->0);
    }
    assert forall|i: int, j: int| 0 <= i < j < planned(keys, n).len() implies #[trigger] planned(
        keys,
        n,
    )[i] != #[trigger] planned(keys, n)[j] by {
        assert(node_of(c[i]) != node_of(c[j]));
    }
}

/// A plan holds every node of which an output was drained.
pub proof fn law_plan_holds_every_affected_node(keys: Seq<DrainedModel>, n: nat, i: int)
    requires
        0 <= i < keys.len(),
        node_of(keys[i]) is Some,
        (node_of(keys[i])->0).0 < n,
    ensures
        planned(keys, n).contains(node_of(keys[i])->0),
    decreases keys.len(),
{
    let node = node_of(keys[i])->0;
    let rest = chosen(keys.drop_last(), n, seq![]);
    let before = Seq::<NodeId>::empty() + nodes_of(rest);
    assert(before =~= nodes_of(rest));
    if i < keys.len() - 1 {
        law_plan_holds_every_affected_node(keys.drop_last(), n, i);
        let k = choose|k: int| 0 <= k < nodes_of(rest).len() && nodes_of(rest)[k] == node;
        assert(planned(keys, n)[k] == node);
    } else if before.contains(node) {
        let k = choose|k: int| 0 <= k < before.len() && before[k] == node;
        assert(planned(keys, n)[k] == node);
    } else {
        assert(planned(keys, n)[rest.len() as int] == node);
    }
}

/// Nodes stand in a plan in the order of their first keys: keys that are drained later only add
/// nodes at the end.
pub proof fn law_plan_keeps_order(keys: Seq<DrainedModel>, more: Seq<DrainedModel>, n: nat)
    ensures
        planned(keys, n).is_prefix_of(planned(keys + more, n)),
    decreases more.len(),
{
    if more.len() == 0 {
        assert(keys + more =~= keys);
    } else {
        let all = keys + more;
        assert(all.drop_last() =~= keys + more.drop_last());
        law_plan_keeps_order(keys, more.drop_last(), n);
        let rest = chosen(all.drop_last(), n, seq![]);
        let a = planned(keys, n);
        let b = planned(all.drop_last(), n);
        let c = planned(all, n);
        assert(c =~= b || c =~= b.push(node_of(all.last())->0));
    }
}

/// The state of planning: the nodes that run, and a stamp for each node that tells whether it is
/// among them.
#[derive(Clone, Debug)]
pub struct Scratch {
    to_run: Vec<NodeId>,
    seen_stamp: Vec<u32>,
    stamp: u32,
}

impl Scratch {
    /// No stamp is from a later time.
    pub closed spec fn wf(&self) -> bool {
        forall|i: int|
            0 <= i < self.seen_stamp@.len() ==> (#[trigger] self.seen_stamp@[i]) <= self.stamp
    }

    /// For how many nodes there are stamps.
    pub closed spec fn room(&self) -> nat {
        self.seen_stamp@.len()
    }

    /// The nodes that run.
    pub closed spec fn nodes(&self) -> Seq<NodeId> {
        self.to_run@
    }

    /// The nodes with the present stamp are those that run.
    pub closed spec fn draining(&self) -> bool {
        &&& self.wf()
        &&& forall|i: int|
            0 <= i < self.seen_stamp@.len() ==> ((#[trigger] self.seen_stamp@[i]) == self.stamp
                <==> self.to_run@.contains(NodeId(i as u64)))
    }

    /// Nothing runs.
    pub fn new() -> (s: Self)
        ensures
            s.wf(),
            s.draining(),
            s.room() == 0,
            s.nodes() == Seq::<NodeId>::empty(),
    {
        let s = Scratch { to_run: Vec::new(), seen_stamp: Vec::new(), stamp: 0 };
        assert(s.to_run@ =~= Seq::<NodeId>::empty());
        s
    }

    /// Starts to plan for a number of nodes. What there was room for before stays.
    pub fn start_drain(&mut self, node_count: usize)
        requires
            old(self).wf(),
        ensures
            final(self).draining(),
            final(self).wf(),
            final(self).room() == (if old(self).room() < node_count {
                node_count as nat
            } else {
                old(self).room()
            }),
            final(self).nodes() == Seq::<NodeId>::empty(),
    {
        self.to_run = Vec::new();
        let ghost room = if self.room() < node_count {
            node_count as nat
        } else {
            self.room()
        };
        while self.seen_stamp.len() < node_count
            invariant
                self.wf(),
                self.to_run@.len() == 0,
                self.seen_stamp@.len() <= room,
                self.seen_stamp@.len() < room ==> room == node_count,
                node_count <= room,
            decreases room - self.seen_stamp@.len(),
        {
            self.seen_stamp.push(0);
        }
        if self.stamp == u32::MAX {
            // The stamps start over: none of the old ones may stay.
            let mut i: usize = 0;
            while i < self.seen_stamp.len()
                invariant
                    i <= self.seen_stamp@.len(),
                    self.seen_stamp@.len() == room,
                    self.to_run@.len() == 0,
                    forall|k: int| 0 <= k < i ==> (#[trigger] self.seen_stamp@[k]) == 0,
                decreases self.seen_stamp@.len() - i,
            {
                self.seen_stamp.set(i, 0);
                i = i + 1;
            }
            self.stamp = 1;
        } else {
            self.stamp = self.stamp + 1;
        }
        assert(self.to_run@ =~= Seq::<NodeId>::empty());
    }

    /// Has a node run, unless it does already or there is none.
    pub fn take_node(&mut self, node: NodeId) -> (taken: bool)
        requires
            old(self).draining(),
        ensures
            final(self).draining(),
            final(self).wf(),
            final(self).room() == old(self).room(),
            taken == (node.0 < old(self).room() && !old(self).nodes().contains(node)),
            final(self).nodes() == (if taken {
                old(self).nodes().push(node)
            } else {
                old(self).nodes()
            }),
    {
        if node.0 >= self.seen_stamp.len() as u64 {
            return false;
        }
        let index: usize = node.0 as usize;
        if self.seen_stamp[index] == self.stamp {
            assert(NodeId(index as u64) == node);
            return false;
        }
        let ghost before = self.to_run@;
        self.seen_stamp.set(index, self.stamp);
        self.to_run.push(node);
        proof {
            assert(NodeId(index as u64) == node);
            assert forall|i: int| 0 <= i < self.seen_stamp@.len() implies ((
            #[trigger] self.seen_stamp@[i]) == self.stamp <==> self.to_run@.contains(
                NodeId(i as u64),
            )) by {
                if i == index {
                    assert(self.to_run@[before.len() as int] == node);
                } else {
                    assert(NodeId(i as u64) != node);
                    if before.contains(NodeId(i as u64)) {
                        let k = choose|k: int|
                            0 <= k < before.len() && before[k] == NodeId(i as u64);
                        assert(self.to_run@[k] == NodeId(i as u64));
                    }
                    if self.to_run@.contains(NodeId(i as u64)) {
                        let k = choose|k: int|
                            0 <= k < self.to_run@.len() && self.to_run@[k] == NodeId(i as u64);
                        assert(before[k] == NodeId(i as u64));
                    }
                }
            }
        }
        true
    }

    /// Has the node run that a drained key is an output of.
    pub fn schedule_node_output_key(&mut self, d: &Drained) -> (taken: bool)
        requires
            old(self).draining(),
        ensures
            final(self).draining(),
            final(self).wf(),
            final(self).room() == old(self).room(),
            taken == schedules(d@, old(self).room(), old(self).nodes()),
            final(self).nodes() == (if taken {
                old(self).nodes().push(node_of(d@)->0)
            } else {
                old(self).nodes()
            }),
    {
        match &d.key {
            ResourceKey::NodeOutput { node, .. } => self.take_node(*node),
            _ => false,
        }
    }

    /// Has the nodes run that drained keys are outputs of, and gives the keys back for which they
    /// run.
    pub fn schedule(&mut self, keys: Vec<Drained>) -> (picked: Vec<Drained>)
        requires
            old(self).draining(),
        ensures
            final(self).draining(),
            final(self).wf(),
            final(self).room() == old(self).room(),
            dirty::drained_models(picked@) == chosen(
                dirty::drained_models(keys@),
                old(self).room(),
                old(self).nodes(),
            ),
            final(self).nodes() == old(self).nodes() + nodes_of(
                dirty::drained_models(picked@),
            ),
    {
        let ghost all = dirty::drained_models(keys@);
        let ghost n = self.room();
        let ghost before = self.nodes();
        let mut picked: Vec<Drained> = Vec::new();
        let mut i: usize = 0;
        assert(all.take(0) =~= Seq::<DrainedModel>::empty());
        assert(dirty::drained_models(picked@) =~= Seq::<DrainedModel>::empty());
        assert(self.nodes() =~= before + nodes_of(dirty::drained_models(picked@)));
        while i < keys.len()
            invariant
                i <= keys@.len(),
                all == dirty::drained_models(keys@),
                self.draining(),
                self.wf(),
                self.room() == n,
                dirty::drained_models(picked@) == chosen(all.take(i as int), n, before),
                self.nodes() == before + nodes_of(dirty::drained_models(picked@)),
            decreases keys.len() - i,
        {
            let ghost done = dirty::drained_models(picked@);
            assert(all.take(i + 1).drop_last() =~= all.take(i as int));
            assert(all.take(i + 1).last() == keys@[i as int]@);
            if self.schedule_node_output_key(&keys[i]) {
                let d = Drained { id: keys[i].id, key: keys[i].key.duplicate() };
                assert(d@ == keys@[i as int]@);
                picked.push(d);
                assert(dirty::drained_models(picked@) =~= done.push(d@));
                assert(nodes_of(done.push(d@)) =~= nodes_of(done).push(node_of(d@)->0));
                assert(self.nodes() =~= before + nodes_of(done.push(d@)));
            }
            i = i + 1;
        }
        assert(all.take(i as int) =~= all);
        picked
    }

    /// Takes the nodes that run.
    pub fn take_nodes(&mut self) -> (nodes: Vec<NodeId>)
        requires
            old(self).wf(),
        ensures
            nodes@ == old(self).nodes(),
            final(self).wf(),
            final(self).room() == old(self).room(),
            final(self).nodes() == Seq::<NodeId>::empty(),
    {
        let mut nodes: Vec<NodeId> = Vec::new();
        std::mem::swap(&mut nodes, &mut self.to_run);
        assert(self.to_run@ =~= Seq::<NodeId>::empty());
        nodes
    }
}

} // verus!
