//! What running a graph again and again keeps: every output depends on all that was read for it.

use vstd::prelude::*;

use crate::access::{AccessModel, KeyModel, NodeId};
use crate::dirty;
use crate::dirty::{Asked, DirtyKey, DrainedModel};
use crate::graph_model;
use crate::graph_model::{BindingModel, Executed, GraphErrorModel, GraphView, KindModel, NodeModel, Resolved};
use crate::report::{DetailModel, ReportDetailMask};
use crate::strict;
use crate::strict::HostCall;
use crate::value::ValueModel;
use crate::vm;

verus! {

// ---------------------------------------------------------------------------------------------
// What is asked of the engine.
// ---------------------------------------------------------------------------------------------

/// No dependencies are replaced.
pub open spec fn keeps_dependencies(more: Seq<Asked>) -> bool {
    forall|i: int| 0 <= i < more.len() ==> !(#[trigger] more[i] is SetDependencies)
}

/// Where none are replaced, a key keeps its dependencies.
pub proof fn lemma_dependencies_grow(asked: Seq<Asked>, more: Seq<Asked>, id: DirtyKey)
    requires
        keeps_dependencies(more),
    ensures
        dirty::dependencies(asked, id).subset_of(dirty::dependencies(asked + more, id)),
    decreases more.len(),
{
    if more.len() == 0 {
        assert(asked + more =~= asked);
    } else {
        assert forall|i: int| 0 <= i < more.drop_last().len() implies !(
        #[trigger] more.drop_last()[i] is SetDependencies) by {
            assert(more.drop_last()[i] == more[i]);
        }
        lemma_dependencies_grow(asked, more.drop_last(), id);
        assert((asked + more).drop_last() =~= asked + more.drop_last());
        assert((asked + more).last() == more[more.len() - 1]);
    }
}

/// Where dependencies are set, they are those.
pub proof fn lemma_dependency_asks(
    asked: Seq<Asked>,
    output_ids: Seq<DirtyKey>,
    on: Seq<DirtyKey>,
    k: nat,
    id: DirtyKey,
)
    requires
        k <= output_ids.len(),
    ensures
        dirty::dependencies(asked + graph_model::dependency_asks(output_ids, on, k), id) == (
        if output_ids.take(k as int).contains(id) {
            on.to_set()
        } else {
            dirty::dependencies(asked, id)
        }),
    decreases k,
{
    let all = asked + graph_model::dependency_asks(output_ids, on, k);
    if k == 0 {
        assert(all =~= asked);
    } else {
        lemma_dependency_asks(asked, output_ids, on, (k - 1) as nat, id);
        let last = Asked::SetDependencies { id: output_ids[k - 1], on };
        assert(all =~= (asked + graph_model::dependency_asks(output_ids, on, (k - 1) as nat)).push(
            last,
        ));
        assert(all.drop_last() =~= asked + graph_model::dependency_asks(
            output_ids,
            on,
            (k - 1) as nat,
        ));
        let now = output_ids.take(k as int);
        let before = output_ids.take(k - 1);
        assert(now =~= before.push(output_ids[k - 1]));
        if now.contains(id) && id != output_ids[k - 1] {
            let i = choose|i: int| 0 <= i < now.len() && now[i] == id;
            assert(before[i] == id);
        }
        if before.contains(id) {
            let i = choose|i: int| 0 <= i < before.len() && before[i] == id;
            assert(now[i] == id);
        }
        if id == output_ids[k - 1] {
            assert(now[k - 1] == id);
        }
    }
}

/// Numbering keys keeps dependencies.
proof fn lemma_intern_asks(keys: Seq<KeyModel>, ids: Seq<DirtyKey>, k: nat)
    ensures
        keeps_dependencies(graph_model::intern_asks(keys, ids, k)),
    decreases k,
{
    if k > 0 {
        lemma_intern_asks(keys, ids, (k - 1) as nat);
    }
}

/// Wiring keeps dependencies.
pub proof fn lemma_wire_asks(output_ids: Seq<DirtyKey>, src: DirtyKey, k: nat)
    ensures
        keeps_dependencies(graph_model::wire_asks(output_ids, src, k)),
    decreases k,
{
    if k > 0 {
        lemma_wire_asks(output_ids, src, (k - 1) as nat);
    }
}

/// The outputs of a new node are numbered, and no dependencies are replaced.
proof fn lemma_output_asks(node: NodeId, names: Seq<Seq<char>>, ids: Seq<DirtyKey>, k: nat)
    ensures
        keeps_dependencies(graph_model::output_asks(node, names, ids, k)),
        forall|i: int|
            0 <= i < k ==> dirty::interned(
                graph_model::output_asks(node, names, ids, k),
                graph_model::output_key(node, #[trigger] names[i]),
                ids[i],
            ),
    decreases k,
{
    if k > 0 {
        let before = graph_model::output_asks(node, names, ids, (k - 1) as nat);
        let now = graph_model::output_asks(node, names, ids, k);
        lemma_output_asks(node, names, ids, (k - 1) as nat);
        let intern = Asked::Intern { key: graph_model::output_key(node, names[k - 1]), id: ids[k - 1] };
        let mark = Asked::MarkDirty { id: ids[k - 1] };
        assert(now =~= before + seq![intern, mark]);
        assert forall|i: int| 0 <= i < k implies dirty::interned(
            now,
            graph_model::output_key(node, #[trigger] names[i]),
            ids[i],
        ) by {
            if i < k - 1 {
                dirty::lemma_interned_grows(
                    before,
                    seq![intern, mark],
                    graph_model::output_key(node, names[i]),
                    ids[i],
                );
            } else {
                assert(now[before.len() as int] == intern);
            }
        }
    }
}

// ---------------------------------------------------------------------------------------------
// What is kept.
// ---------------------------------------------------------------------------------------------

/// A node stays as it should be, whatever else is asked of the engine.
proof fn lemma_node_ok_grows(asked: Seq<Asked>, more: Seq<Asked>, i: int, n: NodeModel)
    requires
        graph_model::node_ok(asked, i, n),
    ensures
        graph_model::node_ok(asked + more, i, n),
{
    assert forall|k: int| 0 <= k < n.inputs.len() implies graph_model::binding_ok(
        asked + more,
        n.input_names[k],
        #[trigger] n.inputs[k],
    ) by {
        assert(graph_model::binding_ok(asked, n.input_names[k], n.inputs[k]));
        match n.inputs[k] {
            Some(BindingModel::External { read_id, .. }) => {
                dirty::lemma_interned_grows(
                    asked,
                    more,
                    KeyModel::Input(n.input_names[k]),
                    read_id,
                );
            },
            Some(BindingModel::FromNode { node, output, read_id }) => {
                dirty::lemma_interned_grows(
                    asked,
                    more,
                    graph_model::output_key(node, output),
                    read_id,
                );
            },
            None => {},
        }
    }
    assert forall|k: int| 0 <= k < n.output_ids.len() implies dirty::interned(
        asked + more,
        graph_model::output_key(NodeId(i as u64), n.output_names[k]),
        #[trigger] n.output_ids[k],
    ) by {
        dirty::lemma_interned_grows(
            asked,
            more,
            graph_model::output_key(NodeId(i as u64), n.output_names[k]),
            n.output_ids[k],
        );
    }
}

/// A graph stays consistent where more is asked of the engine and no dependencies are replaced.
pub proof fn lemma_ask(g: GraphView, more: Seq<Asked>)
    requires
        g.consistent(),
        keeps_dependencies(more),
    ensures
        g.ask(more).consistent(),
{
    let post = g.ask(more);
    assert forall|i: int| 0 <= i < post.nodes.len() implies graph_model::node_ok(
        post.asked,
        i,
        #[trigger] post.nodes[i],
    ) by {
        lemma_node_ok_grows(g.asked, more, i, g.nodes[i]);
    }
    assert forall|name: Seq<char>| #[trigger] post.input_ids.contains_key(name) implies dirty::interned(
        post.asked,
        KeyModel::Input(name),
        post.input_ids[name],
    ) by {
        dirty::lemma_interned_grows(g.asked, more, KeyModel::Input(name), g.input_ids[name]);
    }
    if dirty::distinct_numbers(post.asked) {
        dirty::lemma_distinct_before(g.asked, more);
        assert forall|i: int| 0 <= i < post.nodes.len() implies graph_model::reads_kept(
            post.asked,
            #[trigger] post.nodes[i],
        ) && graph_model::wired(post.asked, post.nodes[i]) by {
            assert(graph_model::reads_kept(g.asked, g.nodes[i]));
            lemma_reads_kept_grows(g.asked, more, g.nodes[i]);
            lemma_wired_grows(g.asked, more, g.nodes[i]);
        }
    }
}

/// A node keeps its reads where no dependencies are replaced.
proof fn lemma_reads_kept_grows(asked: Seq<Asked>, more: Seq<Asked>, n: NodeModel)
    requires
        graph_model::reads_kept(asked, n),
        keeps_dependencies(more),
    ensures
        graph_model::reads_kept(asked + more, n),
{
    if n.deps_initialized {
        assert forall|k: int, id: DirtyKey|
            0 <= k < n.output_ids.len() && n.last_read_ids.contains(id) implies
            #[trigger] dirty::dependencies(asked + more, n.output_ids[k]).contains(id) by {
            lemma_dependencies_grow(asked, more, n.output_ids[k]);
            assert(dirty::dependencies(asked, n.output_ids[k]).contains(id));
        }
    }
}

/// A node keeps its wiring where no dependencies are replaced.
proof fn lemma_wired_grows(asked: Seq<Asked>, more: Seq<Asked>, n: NodeModel)
    requires
        graph_model::wired(asked, n),
        keeps_dependencies(more),
    ensures
        graph_model::wired(asked + more, n),
{
    assert forall|k: int, j: int|
        0 <= k < n.output_ids.len() && 0 <= j < n.inputs.len() implies (graph_model::source(
        #[trigger] n.inputs[j],
    ) matches Some(id) ==> dirty::dependencies(
        asked + more,
        #[trigger] n.output_ids[k],
    ).contains(id)) by {
        lemma_dependencies_grow(asked, more, n.output_ids[k]);
    }
}

/// A graph stays consistent where a node is replaced by one that is as it should be.
pub proof fn lemma_put(g: GraphView, node: NodeId, n: NodeModel)
    requires
        g.consistent(),
        g.has(node),
        graph_model::node_ok(g.asked, node.0 as int, n),
        dirty::distinct_numbers(g.asked) ==> graph_model::reads_kept(g.asked, n)
            && graph_model::wired(g.asked, n),
    ensures
        g.put(node, n).consistent(),
{
}

/// A graph stays consistent where the inputs of a node are bound to something that was numbered, and
/// that the outputs of the node depend on if it is an output.
pub proof fn lemma_bind(g: GraphView, node: NodeId, name: Seq<char>, b: BindingModel)
    requires
        g.consistent(),
        g.has(node),
        graph_model::binding_ok(g.asked, name, Some(b)),
        graph_model::source(Some(b)) matches Some(id) ==> forall|k: int|
            0 <= k < g.node(node).output_ids.len() ==> dirty::dependencies(
                g.asked,
                #[trigger] g.node(node).output_ids[k],
            ).contains(id),
    ensures
        g.put(node, graph_model::bind(g.node(node), name, b)).consistent(),
{
    let n = graph_model::bind(g.node(node), name, b);
    assert(graph_model::node_ok(g.asked, node.0 as int, g.node(node)));
    assert(graph_model::node_ok(g.asked, node.0 as int, n)) by {
        assert forall|k: int| 0 <= k < n.inputs.len() implies graph_model::binding_ok(
            g.asked,
            n.input_names[k],
            #[trigger] n.inputs[k],
        ) by {
            assert(graph_model::binding_ok(
                g.asked,
                g.node(node).input_names[k],
                g.node(node).inputs[k],
            ));
        }
    }
    if dirty::distinct_numbers(g.asked) {
        assert(graph_model::reads_kept(g.asked, g.nodes[node.0 as int]));
        let old_n = g.node(node);
        assert(graph_model::wired(g.asked, old_n));
        assert forall|k: int, j: int|
            0 <= k < n.output_ids.len() && 0 <= j < n.inputs.len() implies (graph_model::source(
            #[trigger] n.inputs[j],
        ) matches Some(id) ==> dirty::dependencies(
            g.asked,
            #[trigger] n.output_ids[k],
        ).contains(id)) by {
            assert(n.output_ids[k] == old_n.output_ids[k]);
            assert(graph_model::source(old_n.inputs[j]) matches Some(id) ==> dirty::dependencies(
                g.asked,
                old_n.output_ids[k],
            ).contains(id));
        }
    }
    lemma_put(g, node, n);
}

/// A graph stays consistent where a node is added.
pub proof fn lemma_with_node(
    g: GraphView,
    kind: KindModel,
    input_names: Seq<Seq<char>>,
    output_names: Seq<Seq<char>>,
    ids: Seq<DirtyKey>,
)
    requires
        g.consistent(),
        g.nodes.len() < u64::MAX,
        ids.len() == output_names.len(),
    ensures
        g.with_node(kind, input_names, output_names, ids).consistent(),
{
    let node = NodeId(g.nodes.len() as u64);
    let more = graph_model::output_asks(node, output_names, ids, output_names.len());
    let n = graph_model::fresh_node(kind, input_names, output_names, ids);
    let post = g.with_node(kind, input_names, output_names, ids);
    lemma_output_asks(node, output_names, ids, output_names.len());
    lemma_ask(g, more);
    let mid = g.ask(more);
    assert(graph_model::node_ok(post.asked, g.nodes.len() as int, n)) by {
        assert forall|k: int| 0 <= k < n.output_ids.len() implies dirty::interned(
            post.asked,
            graph_model::output_key(node, n.output_names[k]),
            #[trigger] n.output_ids[k],
        ) by {
            let key = graph_model::output_key(node, output_names[k]);
            let e = Asked::Intern { key, id: ids[k] };
            assert(dirty::interned(more, key, ids[k]));
            let j = choose|j: int| 0 <= j < more.len() && more[j] == e;
            assert(post.asked[g.asked.len() + j] == e);
        }
    }
    assert forall|i: int| 0 <= i < post.nodes.len() implies graph_model::node_ok(
        post.asked,
        i,
        #[trigger] post.nodes[i],
    ) by {
        if i < g.nodes.len() {
            assert(graph_model::node_ok(mid.asked, i, mid.nodes[i]));
        }
    }
    if dirty::distinct_numbers(post.asked) {
        assert forall|i: int| 0 <= i < post.nodes.len() implies graph_model::reads_kept(
            post.asked,
            #[trigger] post.nodes[i],
        ) && graph_model::wired(post.asked, post.nodes[i]) by {
            if i < g.nodes.len() {
                assert(graph_model::reads_kept(mid.asked, mid.nodes[i]));
            }
        }
    }
    assert forall|name: Seq<char>| #[trigger] post.input_ids.contains_key(name) implies dirty::interned(
        post.asked,
        KeyModel::Input(name),
        post.input_ids[name],
    ) by {
        assert(mid.input_ids.contains_key(name));
    }
    assert(post.nodes.len() <= u64::MAX);
}

/// The names under which results are stored are there.
pub proof fn lemma_store_outputs(
    outputs: Map<Seq<char>, ValueModel>,
    names: Seq<Seq<char>>,
    results: Seq<ValueModel>,
    k: nat,
)
    requires
        k <= names.len(),
    ensures
        forall|i: int|
            0 <= i < k ==> graph_model::store_outputs(outputs, names, results, k).contains_key(
                #[trigger] names[i],
            ),
        forall|name: Seq<char>|
            outputs.contains_key(name) ==> #[trigger] graph_model::store_outputs(
                outputs,
                names,
                results,
                k,
            ).contains_key(name),
        forall|name: Seq<char>| #[trigger]
            graph_model::store_outputs(outputs, names, results, k).contains_key(name)
                ==> outputs.contains_key(name) || names.contains(name),
    decreases k,
{
    if k > 0 {
        let before = graph_model::store_outputs(outputs, names, results, (k - 1) as nat);
        let now = graph_model::store_outputs(outputs, names, results, k);
        lemma_store_outputs(outputs, names, results, (k - 1) as nat);
        assert(now == before.insert(names[k - 1], results[k - 1]));
        assert forall|name: Seq<char>| outputs.contains_key(name) implies #[trigger] now.contains_key(
            name,
        ) by {
            assert(before.contains_key(name));
        }
    }
}

/// A graph stays consistent where a node has run.
pub proof fn lemma_finished(g: GraphView, node: NodeId, r: Resolved, x: Executed, ids: Seq<DirtyKey>)
    requires
        g.consistent(),
        g.has(node),
        g.inputs_of(node) == Ok::<Resolved, GraphErrorModel>(r),
        ids.len() == graph_model::read_keys(x.accesses).len(),
    ensures
        g.finished(node, r, x, ids).0.consistent(),
{
    let n = g.node(node);
    let keys = graph_model::read_keys(x.accesses);
    let g0 = GraphView { world: x.world, ..g };
    assert(g0.consistent());
    let interns = graph_model::intern_asks(keys, ids, keys.len());
    lemma_intern_asks(keys, ids, keys.len());
    lemma_ask(g0, interns);
    let g1 = g0.ask(interns);
    if x.results is Ok && !(g.strict_deps && n.kind is Tape && x.silent is Some)
        && x.results->Ok_0.len() == n.output_names.len() {
        let results = x.results->Ok_0;
        let read_ids = r.read_ids + ids;
        let log = if g.collect_access {
            Some(r.reads + x.accesses + graph_model::output_writes(node, n.output_names))
        } else {
            None
        };
        let done = graph_model::committed(n, results, read_ids, log);
        assert(graph_model::node_ok(g1.asked, node.0 as int, g1.nodes[node.0 as int]));
        lemma_store_outputs(n.outputs, n.output_names, results, results.len());
        dirty::lemma_canonical_exists(read_ids);
        assert(graph_model::node_ok(g1.asked, node.0 as int, done));
        let on = dirty::canonical(read_ids);
        assert forall|j: int| 0 <= j < done.inputs.len() implies (graph_model::source(
            #[trigger] done.inputs[j],
        ) matches Some(id) ==> on.contains(id)) by {
            match graph_model::source(done.inputs[j]) {
                Some(id) => {
                    lemma_resolved_reads(g, node, n.inputs.len(), j);
                    let m = choose|m: int| 0 <= m < r.read_ids.len() && r.read_ids[m] == id;
                    assert(read_ids[m] == id);
                    assert(read_ids.to_set().contains(id));
                    assert(on.to_set().contains(id));
                },
                None => {},
            }
        }
        lemma_set_dependencies(g1, node, on, done);
    }
}

/// A graph stays consistent where the outputs of a node come to depend on what its run read.
proof fn lemma_set_dependencies(g: GraphView, node: NodeId, on: Seq<DirtyKey>, done: NodeModel)
    requires
        g.consistent(),
        g.has(node),
        graph_model::node_ok(g.asked, node.0 as int, done),
        done.output_ids == g.node(node).output_ids,
        done.output_names == g.node(node).output_names,
        done.last_read_ids == on,
        forall|j: int|
            0 <= j < done.inputs.len() ==> (graph_model::source(#[trigger] done.inputs[j]) matches Some(
                id,
            ) ==> on.contains(id)),
    ensures
        g.ask(
            graph_model::dependency_asks(done.output_ids, on, done.output_ids.len()),
        ).put(node, done).consistent(),
{
    let outs = done.output_ids;
    let more = graph_model::dependency_asks(outs, on, outs.len());
    let mid = g.ask(more);
    let post = mid.put(node, done);
    assert forall|i: int| 0 <= i < post.nodes.len() implies graph_model::node_ok(
        post.asked,
        i,
        #[trigger] post.nodes[i],
    ) by {
        if i == node.0 {
            lemma_node_ok_grows(g.asked, more, i, done);
        } else {
            lemma_node_ok_grows(g.asked, more, i, g.nodes[i]);
        }
    }
    assert forall|name: Seq<char>| #[trigger] post.input_ids.contains_key(name) implies dirty::interned(
        post.asked,
        KeyModel::Input(name),
        post.input_ids[name],
    ) by {
        dirty::lemma_interned_grows(g.asked, more, KeyModel::Input(name), g.input_ids[name]);
    }
    if dirty::distinct_numbers(post.asked) {
        dirty::lemma_distinct_before(g.asked, more);
        assert forall|i: int, k: int|
            0 <= i < post.nodes.len() && 0 <= k < post.nodes[i].output_ids.len() implies
            #[trigger] dirty::dependencies(post.asked, post.nodes[i].output_ids[k]) == (if i
            == node.0 {
            on.to_set()
        } else {
            dirty::dependencies(g.asked, g.nodes[i].output_ids[k])
        }) by {
            let n = post.nodes[i];
            let out = n.output_ids[k];
            lemma_dependency_asks(g.asked, outs, on, outs.len(), out);
            assert(outs.take(outs.len() as int) =~= outs);
            if i == node.0 {
                assert(outs[k] == out);
                assert(outs.contains(out));
            } else if outs.contains(out) {
                let m = choose|m: int| 0 <= m < outs.len() && outs[m] == out;
                let a = graph_model::output_key(node, done.output_names[m]);
                let b = graph_model::output_key(NodeId(i as u64), n.output_names[k]);
                assert(dirty::interned(g.asked, a, done.output_ids[m]));
                assert(graph_model::node_ok(g.asked, i, g.nodes[i]));
                assert(dirty::interned(g.asked, b, n.output_ids[k]));
                assert(a == b);
            }
        }
        assert forall|i: int| 0 <= i < post.nodes.len() implies graph_model::reads_kept(
            post.asked,
            #[trigger] post.nodes[i],
        ) && graph_model::wired(post.asked, post.nodes[i]) by {
            let n = post.nodes[i];
            if i != node.0 {
                assert(graph_model::reads_kept(g.asked, g.nodes[i]));
                assert(n == g.nodes[i]);
            }
            if n.deps_initialized {
                assert forall|k: int, id: DirtyKey|
                    0 <= k < n.output_ids.len() && n.last_read_ids.contains(id) implies
                    #[trigger] dirty::dependencies(post.asked, n.output_ids[k]).contains(id) by {
                    let now = dirty::dependencies(post.asked, post.nodes[i].output_ids[k]);
                    if i == node.0 {
                        assert(on.to_set().contains(id));
                    } else {
                        assert(dirty::dependencies(g.asked, n.output_ids[k]).contains(id));
                    }
                    assert(now.contains(id));
                }
            }
            assert forall|k: int, j: int|
                0 <= k < n.output_ids.len() && 0 <= j < n.inputs.len() implies (graph_model::source(
                #[trigger] n.inputs[j],
            ) matches Some(id) ==> dirty::dependencies(
                post.asked,
                #[trigger] n.output_ids[k],
            ).contains(id)) by {
                let now = dirty::dependencies(post.asked, post.nodes[i].output_ids[k]);
                match graph_model::source(n.inputs[j]) {
                    Some(id) => {
                        if i == node.0 {
                            assert(on.to_set().contains(id));
                        } else {
                            assert(dirty::dependencies(g.asked, n.output_ids[k]).contains(id));
                        }
                        assert(now.contains(id));
                    },
                    None => {},
                }
            }
        }
    }
}

// ---------------------------------------------------------------------------------------------
// Laws.
// ---------------------------------------------------------------------------------------------

/// Each output of a node that ran depends on every key that the last run read, so that invalidating
/// one of them affects the node. This holds of every graph whose engine gives no two keys the same
/// number.
pub proof fn law_reads_are_dependencies(g: GraphView, node: NodeId, k: int, id: DirtyKey)
    requires
        g.consistent(),
        dirty::distinct_numbers(g.asked),
        g.has(node),
        g.node(node).deps_initialized,
        0 <= k < g.node(node).output_ids.len(),
        g.node(node).last_read_ids.contains(id),
    ensures
        dirty::dependencies(g.asked, g.node(node).output_ids[k]).contains(id),
{
    assert(graph_model::reads_kept(g.asked, g.nodes[node.0 as int]));
}

/// The inputs that could be resolved were all read.
proof fn lemma_resolved_reads(g: GraphView, node: NodeId, k: nat, i: int)
    requires
        g.resolved(node, k) is Ok,
        0 <= i < k,
    ensures
        g.read_input(node, i) is Ok,
        g.resolved(node, k)->Ok_0.args.len() == k,
        g.resolved(node, k)->Ok_0.args[i] == g.read_input(node, i)->Ok_0.value,
        g.resolved(node, k)->Ok_0.read_ids.contains(g.read_input(node, i)->Ok_0.read_id),
    decreases k,
{
    let r = g.resolved(node, k)->Ok_0;
    let before = g.resolved(node, (k - 1) as nat)->Ok_0;
    lemma_resolved_len(g, node, (k - 1) as nat);
    if i < k - 1 {
        lemma_resolved_reads(g, node, (k - 1) as nat, i);
        let id = g.read_input(node, i)->Ok_0.read_id;
        let j = choose|j: int| 0 <= j < before.read_ids.len() && before.read_ids[j] == id;
        assert(r.read_ids[j] == id);
    } else {
        assert(r.read_ids[before.read_ids.len() as int] == g.read_input(node, i)->Ok_0.read_id);
    }
}

/// There is an argument for each input.
proof fn lemma_resolved_len(g: GraphView, node: NodeId, k: nat)
    requires
        g.resolved(node, k) is Ok,
    ensures
        g.resolved(node, k)->Ok_0.args.len() == k,
    decreases k,
{
    if k > 0 {
        lemma_resolved_len(g, node, (k - 1) as nat);
    }
}

/// After a run of a node every key that one of its inputs is bound to is among those that it read.
pub proof fn law_run_reads_inputs(g: GraphView, node: NodeId, post: GraphView, i: int)
    requires
        g.node_ran(node, post, Ok::<(), GraphErrorModel>(())),
        0 <= i < g.node(node).input_names.len(),
    ensures
        g.read_input(node, i) is Ok,
        post.node(node).deps_initialized,
        post.node(node).last_read_ids.contains(g.read_input(node, i)->Ok_0.read_id),
{
    let r = g.inputs_of(node)->Ok_0;
    let (x, ids) = choose|x: Executed, ids: Seq<DirtyKey>|
        g.executes(node, r.args, x) && ids.len() == graph_model::read_keys(x.accesses).len()
            && #[trigger] g.finished(node, r, x, ids) == (post, Ok::<(), GraphErrorModel>(()));
    let n = g.node(node).input_names.len();
    lemma_resolved_reads(g, node, n, i);
    let id = g.read_input(node, i)->Ok_0.read_id;
    let all = r.read_ids + ids;
    let j = choose|j: int| 0 <= j < r.read_ids.len() && r.read_ids[j] == id;
    assert(all[j] == id);
    lemma_canonical_contains(all, id);
}

/// The keys in increasing order are the same keys.
proof fn lemma_canonical_contains(ids: Seq<DirtyKey>, id: DirtyKey)
    ensures
        dirty::canonical(ids).contains(id) == ids.contains(id),
{
    dirty::lemma_canonical_exists(ids);
    assert(dirty::canonical(ids).to_set().contains(id) == ids.to_set().contains(id));
}

/// A run of a node leaves all other nodes as they are. One that fails leaves the node itself as it
/// is, too.
pub proof fn law_run_touches_one_node(
    g: GraphView,
    node: NodeId,
    post: GraphView,
    res: Result<(), GraphErrorModel>,
)
    requires
        g.node_ran(node, post, res),
    ensures
        post.nodes.len() == g.nodes.len(),
        forall|i: int|
            0 <= i < g.nodes.len() && i != node.0 ==> #[trigger] post.nodes[i] == g.nodes[i],
        res is Err ==> post.nodes == g.nodes,
        post.strict_deps == g.strict_deps,
        post.collect_access == g.collect_access,
        post.input_ids == g.input_ids,
        post.limits == g.limits,
{
}

/// A run of a node counts, leaves its wiring as it is, and keeps the accesses exactly where they
/// are collected.
pub proof fn law_run_counts(g: GraphView, node: NodeId, post: GraphView)
    requires
        g.node_ran(node, post, Ok::<(), GraphErrorModel>(())),
    ensures
        post.node(node).run_count == graph_model::counted(g.node(node).run_count),
        post.node(node).last_access is Some == g.collect_access,
        graph_model::same_wiring(g.node(node), post.node(node)),
{
}

/// What nodes that run one after the other leave as it is, up to state `k`.
proof fn lemma_ran_via(states: Seq<GraphView>, nodes: Seq<NodeId>, k: nat)
    requires
        graph_model::ran_via(states, nodes),
        k <= nodes.len(),
    ensures
        states[k as int].nodes.len() == states[0].nodes.len(),
        states[k as int].strict_deps == states[0].strict_deps,
        states[k as int].collect_access == states[0].collect_access,
        states[k as int].input_ids == states[0].input_ids,
        states[k as int].limits == states[0].limits,
        forall|i: int|
            0 <= i < states[0].nodes.len() ==> graph_model::same_wiring(
                states[0].nodes[i],
                #[trigger] states[k as int].nodes[i],
            ),
        forall|i: int|
            0 <= i < states[0].nodes.len() && !nodes.take(k as int).contains(NodeId(i as u64))
                && i <= u64::MAX ==> #[trigger] states[k as int].nodes[i] == states[0].nodes[i],
        forall|j: int|
            0 <= j < k ==> states[0].has(#[trigger] nodes[j]),
        nodes.take(k as int).no_duplicates() ==> forall|j: int|
            0 <= j < k ==> states[k as int].node(#[trigger] nodes[j]).run_count
                == graph_model::counted(states[0].node(nodes[j]).run_count),
    decreases k,
{
    if k > 0 {
        let (a, b) = (states[k - 1], states[k as int]);
        let node = nodes[k - 1];
        let (old_taken, taken) = (nodes.take(k - 1), nodes.take(k as int));
        lemma_ran_via(states, nodes, (k - 1) as nat);
        assert(a.node_ran(node, b, Ok::<(), GraphErrorModel>(()))) by {
            reveal(graph_model::ran_via);
        }
        law_run_touches_one_node(a, node, b, Ok::<(), GraphErrorModel>(()));
        law_run_counts(a, node, b);
        assert(taken.last() == node);
        assert forall|i: int| 0 <= i < states[0].nodes.len() implies graph_model::same_wiring(
            states[0].nodes[i],
            #[trigger] b.nodes[i],
        ) by {
            assert(graph_model::same_wiring(states[0].nodes[i], a.nodes[i]));
        }
        assert forall|i: int|
            0 <= i < states[0].nodes.len() && !taken.contains(NodeId(i as u64)) && i
                <= u64::MAX implies #[trigger] b.nodes[i] == states[0].nodes[i] by {
            assert forall|x: NodeId| old_taken.contains(x) implies taken.contains(x) by {
                let j = choose|j: int| 0 <= j < old_taken.len() && old_taken[j] == x;
                assert(taken[j] == x);
            }
            assert(taken.contains(node));
            assert(a.nodes[i] == states[0].nodes[i]);
        }
        if taken.no_duplicates() {
            assert(old_taken.no_duplicates()) by {
                assert forall|i: int, j: int|
                    0 <= i < old_taken.len() && 0 <= j < old_taken.len() && i
                        != j implies old_taken[i] != old_taken[j] by {
                    assert(taken[i] != taken[j]);
                }
            }
            assert(!old_taken.contains(node)) by {
                if old_taken.contains(node) {
                    let j = choose|j: int| 0 <= j < old_taken.len() && old_taken[j] == node;
                    assert(taken[j] != taken[k - 1]);
                }
            }
            assert forall|j: int| 0 <= j < k implies b.node(#[trigger] nodes[j]).run_count
                == graph_model::counted(states[0].node(nodes[j]).run_count) by {
                if j < k - 1 {
                    assert(taken[j] != taken[k - 1]);
                    assert(states[0].has(nodes[j]));
                } else {
                    assert(NodeId(node.0 as int as u64) == node);
                    assert(a.nodes[node.0 as int] == states[0].nodes[node.0 as int]);
                }
            }
        }
    }
}

/// A run of a plan leaves the number of nodes, their wiring and the settings as they are, whether it
/// succeeds or not.
pub proof fn law_plan_keeps_wiring(
    g: GraphView,
    nodes: Seq<NodeId>,
    post: GraphView,
    res: Result<(), GraphErrorModel>,
)
    requires
        g.plan_ran(nodes, post, res),
    ensures
        post.nodes.len() == g.nodes.len(),
        post.strict_deps == g.strict_deps,
        post.collect_access == g.collect_access,
        post.input_ids == g.input_ids,
        post.limits == g.limits,
        forall|i: int|
            0 <= i < g.nodes.len() ==> graph_model::same_wiring(
                g.nodes[i],
                #[trigger] post.nodes[i],
            ),
{
    lemma_plan_ran(g, nodes, post, res);
}

/// A run of a plan leaves every node that the plan does not hold as it is: its outputs, what it read
/// and how often it ran.
pub proof fn law_unplanned_nodes_stay(
    g: GraphView,
    nodes: Seq<NodeId>,
    post: GraphView,
    res: Result<(), GraphErrorModel>,
    node: NodeId,
)
    requires
        g.plan_ran(nodes, post, res),
        g.has(node),
        !nodes.contains(node),
    ensures
        post.node(node) == g.node(node),
{
    lemma_plan_ran(g, nodes, post, res);
}

/// Where the run of a plan that holds no node twice succeeds, every node that it holds is there and
/// ran once.
pub proof fn law_planned_nodes_run_once(g: GraphView, nodes: Seq<NodeId>, post: GraphView, j: int)
    requires
        g.plan_ran(nodes, post, Ok::<(), GraphErrorModel>(())),
        nodes.no_duplicates(),
        0 <= j < nodes.len(),
    ensures
        g.has(nodes[j]),
        post.node(nodes[j]).run_count == graph_model::counted(g.node(nodes[j]).run_count),
{
    let states = choose|states: Seq<GraphView>| #[trigger]
        graph_model::ran_via(states, nodes) && states[0] == g && states.last() == post;
    assert(states.len() == nodes.len() + 1) by {
        reveal(graph_model::ran_via);
    }
    lemma_ran_via(states, nodes, nodes.len());
    assert(nodes.take(nodes.len() as int) =~= nodes);
}

/// What the run of a plan leaves as it is.
proof fn lemma_plan_ran(
    g: GraphView,
    nodes: Seq<NodeId>,
    post: GraphView,
    res: Result<(), GraphErrorModel>,
)
    requires
        g.plan_ran(nodes, post, res),
    ensures
        post.nodes.len() == g.nodes.len(),
        post.strict_deps == g.strict_deps,
        post.collect_access == g.collect_access,
        post.input_ids == g.input_ids,
        post.limits == g.limits,
        forall|i: int|
            0 <= i < g.nodes.len() ==> graph_model::same_wiring(
                g.nodes[i],
                #[trigger] post.nodes[i],
            ),
        forall|node: NodeId|
            g.has(node) && !nodes.contains(node) ==> #[trigger] post.node(node) == g.node(node),
{
    let (ran, mid) = match res {
        Ok(_) => (nodes, post),
        Err(e) => {
            let (k, mid) = choose|k: int, mid: GraphView|
                0 <= k < nodes.len() && #[trigger] g.all_ran(nodes.take(k), mid) && mid.node_ran(
                    nodes[k],
                    post,
                    Err(e),
                );
            law_run_touches_one_node(mid, nodes[k], post, Err(e));
            assert forall|x: NodeId| nodes.take(k).contains(x) implies nodes.contains(x) by {
                let j = choose|j: int| 0 <= j < k && nodes.take(k)[j] == x;
                assert(nodes[j] == x);
            }
            (nodes.take(k), mid)
        },
    };
    let states = choose|states: Seq<GraphView>| #[trigger]
        graph_model::ran_via(states, ran) && states[0] == g && states.last() == mid;
    assert(states.len() == ran.len() + 1) by {
        reveal(graph_model::ran_via);
    }
    lemma_ran_via(states, ran, ran.len());
    assert(ran.take(ran.len() as int) =~= ran);
    assert(post.nodes == mid.nodes);
    assert forall|node: NodeId| g.has(node) && !nodes.contains(node) implies #[trigger] post.node(
        node,
    ) == g.node(node) by {
        assert(NodeId(node.0 as int as u64) == node);
        assert(mid.nodes[node.0 as int] == g.nodes[node.0 as int]);
    }
    assert forall|i: int| 0 <= i < g.nodes.len() implies graph_model::same_wiring(
        g.nodes[i],
        #[trigger] post.nodes[i],
    ) by {
        assert(graph_model::same_wiring(g.nodes[i], mid.nodes[i]));
    }
}

/// A name that does not come again later keeps the result that was stored under it.
proof fn lemma_stored(
    outputs: Map<Seq<char>, ValueModel>,
    names: Seq<Seq<char>>,
    results: Seq<ValueModel>,
    k: nat,
    i: int,
)
    requires
        k <= names.len(),
        0 <= i < k,
        !graph_model::comes_again(names, i),
    ensures
        graph_model::store_outputs(outputs, names, results, k)[names[i]] == results[i],
    decreases k,
{
    if i < k - 1 {
        lemma_stored(outputs, names, results, (k - 1) as nat, i);
        assert(names[k - 1] != names[i]);
    }
}

/// After a run of a node each output holds the result of its place, where no two outputs have the
/// same name.
pub proof fn law_outputs_hold_results(g: GraphView, node: NodeId, post: GraphView)
    requires
        g.node_ran(node, post, Ok::<(), GraphErrorModel>(())),
        graph_model::first_duplicate(g.node(node).output_names) is None,
    ensures
        exists|x: Executed| #[trigger]
            g.executes(node, g.inputs_of(node)->Ok_0.args, x) && x.results is Ok
                && x.results->Ok_0.len() == g.node(node).output_names.len() && forall|i: int|
                0 <= i < x.results->Ok_0.len() ==> post.node(
                    node,
                ).outputs[#[trigger] g.node(node).output_names[i]] == x.results->Ok_0[i],
{
    let r = g.inputs_of(node)->Ok_0;
    let n = g.node(node);
    let (x, ids) = choose|x: Executed, ids: Seq<DirtyKey>|
        g.executes(node, r.args, x) && ids.len() == graph_model::read_keys(x.accesses).len()
            && #[trigger] g.finished(node, r, x, ids) == (post, Ok::<(), GraphErrorModel>(()));
    let results = x.results->Ok_0;
    assert forall|i: int| 0 <= i < results.len() implies post.node(
        node,
    ).outputs[#[trigger] n.output_names[i]] == results[i] by {
        assert(!graph_model::comes_again(n.output_names, i));
        lemma_stored(n.outputs, n.output_names, results, results.len(), i);
    }
}

/// After a run of a node there is a value for each of its outputs, and for nothing else.
pub proof fn law_outputs_have_no_other_keys(g: GraphView, node: NodeId, post: GraphView)
    requires
        g.consistent(),
        g.node_ran(node, post, Ok::<(), GraphErrorModel>(())),
    ensures
        post.node(node).outputs.dom() == g.node(node).output_names.to_set(),
{
    let r = g.inputs_of(node)->Ok_0;
    let n = g.node(node);
    let (x, ids) = choose|x: Executed, ids: Seq<DirtyKey>|
        g.executes(node, r.args, x) && ids.len() == graph_model::read_keys(x.accesses).len()
            && #[trigger] g.finished(node, r, x, ids) == (post, Ok::<(), GraphErrorModel>(()));
    assert(graph_model::node_ok(g.asked, node.0 as int, g.nodes[node.0 as int]));
    lemma_store_outputs(n.outputs, n.output_names, x.results->Ok_0, x.results->Ok_0.len());
    assert(post.node(node).outputs.dom() =~= n.output_names.to_set());
}

/// A run of a node replaces what its outputs depended on before: they depend on what the run read,
/// and on nothing else.
pub proof fn law_run_replaces_dependencies(g: GraphView, node: NodeId, post: GraphView, k: int)
    requires
        g.node_ran(node, post, Ok::<(), GraphErrorModel>(())),
        0 <= k < g.node(node).output_ids.len(),
    ensures
        dirty::dependencies(post.asked, g.node(node).output_ids[k]) == post.node(
            node,
        ).last_read_ids.to_set(),
{
    let r = g.inputs_of(node)->Ok_0;
    let n = g.node(node);
    let (x, ids) = choose|x: Executed, ids: Seq<DirtyKey>|
        g.executes(node, r.args, x) && ids.len() == graph_model::read_keys(x.accesses).len()
            && #[trigger] g.finished(node, r, x, ids) == (post, Ok::<(), GraphErrorModel>(()));
    let keys = graph_model::read_keys(x.accesses);
    let mid = g.asked + graph_model::intern_asks(keys, ids, keys.len());
    let on = dirty::canonical(r.read_ids + ids);
    let outs = n.output_ids;
    lemma_dependency_asks(mid, outs, on, outs.len(), outs[k]);
    assert(outs.take(outs.len() as int) =~= outs);
    assert(outs.contains(outs[k]));
}

/// A key that an access reads is among the keys that accesses read.
proof fn lemma_read_keys(accesses: Seq<AccessModel>, i: int, key: KeyModel)
    requires
        0 <= i < accesses.len(),
        accesses[i] == AccessModel::Read(key),
    ensures
        graph_model::read_keys(accesses).contains(key),
    decreases accesses.len(),
{
    let before = graph_model::read_keys(accesses.drop_last());
    let now = graph_model::read_keys(accesses);
    if i == accesses.len() - 1 {
        assert(now.last() == key);
    } else {
        lemma_read_keys(accesses.drop_last(), i, key);
        let j = choose|j: int| 0 <= j < before.len() && before[j] == key;
        assert(now[j] == key);
    }
}

/// What a host recorded in a call is among what it recorded in all.
proof fn lemma_told(calls: Seq<HostCall>, c: int, a: AccessModel)
    requires
        0 <= c < calls.len(),
        calls[c].accesses is Some,
        strict::relayed(calls[c].accesses->0).contains(a),
    ensures
        strict::told(calls).contains(a),
    decreases calls.len(),
{
    let before = strict::told(calls.drop_last());
    let now = strict::told(calls);
    if c == calls.len() - 1 {
        let more = strict::relayed(calls[c].accesses->0);
        let j = choose|j: int| 0 <= j < more.len() && more[j] == a;
        assert(now[before.len() + j] == a);
    } else {
        lemma_told(calls.drop_last(), c, a);
        let j = choose|j: int| 0 <= j < before.len() && before[j] == a;
        assert(now[j] == a);
    }
}

/// The reads of a run become dependencies.
proof fn lemma_read_becomes_dependency(
    g: GraphView,
    node: NodeId,
    post: GraphView,
    x: Executed,
    ids: Seq<DirtyKey>,
    key: KeyModel,
    k: int,
)
    requires
        g.inputs_of(node) is Ok,
        g.executes(node, g.inputs_of(node)->Ok_0.args, x),
        ids.len() == graph_model::read_keys(x.accesses).len(),
        g.finished(node, g.inputs_of(node)->Ok_0, x, ids) == (post, Ok::<(), GraphErrorModel>(())),
        x.accesses.contains(AccessModel::Read(key)),
        0 <= k < g.node(node).output_ids.len(),
    ensures
        exists|id: DirtyKey| #[trigger]
            dirty::interned(post.asked, key, id) && dirty::dependencies(
                post.asked,
                g.node(node).output_ids[k],
            ).contains(id),
{
    let r = g.inputs_of(node)->Ok_0;
    let keys = graph_model::read_keys(x.accesses);
    let i = choose|i: int| 0 <= i < x.accesses.len() && x.accesses[i] == AccessModel::Read(key);
    lemma_read_keys(x.accesses, i, key);
    let j = choose|j: int| 0 <= j < keys.len() && keys[j] == key;
    let id = ids[j];
    law_run_replaces_dependencies(g, node, post, k);
    let all = r.read_ids + ids;
    assert(all[r.read_ids.len() + j] == id);
    lemma_canonical_contains(all, id);
    assert(post.node(node).last_read_ids == dirty::canonical(all));
    assert(post.node(node).last_read_ids.to_set().contains(id));
    lemma_intern_asks_hold(keys, ids, keys.len(), j);
    let asks = graph_model::intern_asks(keys, ids, keys.len());
    let q = choose|q: int|
        0 <= q < asks.len() && asks[q] == (Asked::Intern { key: keys[j], id: ids[j] });
    assert(post.asked[g.asked.len() + q] == Asked::Intern { key, id });
    assert(dirty::interned(post.asked, key, id));
}

/// What is asked for keys holds each of them.
proof fn lemma_intern_asks_hold(keys: Seq<KeyModel>, ids: Seq<DirtyKey>, n: nat, j: int)
    requires
        0 <= j < n <= keys.len(),
    ensures
        exists|q: int|
            0 <= q < graph_model::intern_asks(keys, ids, n).len() && #[trigger] graph_model::intern_asks(
                keys,
                ids,
                n,
            )[q] == (Asked::Intern { key: keys[j], id: ids[j] }),
    decreases n,
{
    let now = graph_model::intern_asks(keys, ids, n);
    if j == n - 1 {
        assert(now[now.len() - 1] == Asked::Intern { key: keys[j], id: ids[j] });
    } else {
        lemma_intern_asks_hold(keys, ids, (n - 1) as nat, j);
        let before = graph_model::intern_asks(keys, ids, (n - 1) as nat);
        let q = choose|q: int|
            0 <= q < before.len() && #[trigger] before[q] == (Asked::Intern {
                key: keys[j],
                id: ids[j],
            });
        assert(now[q] == before[q]);
    }
}

/// After a run of a node that runs a function, every output of the node depends on every key that
/// the host reported to have read in one of the calls that the run made.
pub proof fn law_reported_reads_are_dependencies(
    g: GraphView,
    node: NodeId,
    post: GraphView,
    c: int,
    key: KeyModel,
    k: int,
)
    requires
        g.node_ran(node, post, Ok::<(), GraphErrorModel>(())),
        g.node(node).kind is Tape,
        g.world.calls.len() <= c < post.world.calls.len(),
        post.world.calls[c].accesses is Some,
        strict::relayed(post.world.calls[c].accesses->0).contains(AccessModel::Read(key)),
        0 <= k < g.node(node).output_ids.len(),
    ensures
        exists|id: DirtyKey| #[trigger]
            dirty::interned(post.asked, key, id) && dirty::dependencies(
                post.asked,
                g.node(node).output_ids[k],
            ).contains(id),
{
    let r = g.inputs_of(node)->Ok_0;
    let (x, ids) = choose|x: Executed, ids: Seq<DirtyKey>|
        g.executes(node, r.args, x) && ids.len() == graph_model::read_keys(x.accesses).len()
            && #[trigger] g.finished(node, r, x, ids) == (post, Ok::<(), GraphErrorModel>(()));
    let calls = vm::since(g.world.calls, x.world.calls);
    assert(calls[c - g.world.calls.len()] == post.world.calls[c]);
    lemma_told(calls, c - g.world.calls.len(), AccessModel::Read(key));
    lemma_read_becomes_dependency(g, node, post, x, ids, key, k);
}

/// After a run of a node that calls back, the last of the calls is one of what the node was given to
/// call, with the arguments of the node, its outputs hold what came back from it, where no two of them have the same name, and
/// every output depends on every key that the callback reported to have read.
pub proof fn law_callback_gives_outputs(g: GraphView, node: NodeId, post: GraphView)
    requires
        g.node_ran(node, post, Ok::<(), GraphErrorModel>(())),
        g.node(node).kind is Native,
        graph_model::first_duplicate(g.node(node).output_names) is None,
    ensures
        ({
            let call = post.world.natives.last();
            let names = g.node(node).output_names;
            &&& post.world.natives == g.world.natives.push(call)
            &&& call.node == node
            &&& call.callback == g.node(node).kind->Native_callback
            &&& call.args == g.inputs_of(node)->Ok_0.args
            &&& call.results is Ok
            &&& call.results->Ok_0.len() == names.len()
            &&& forall|i: int|
                0 <= i < names.len() ==> post.node(node).outputs[#[trigger] names[i]]
                    == call.results->Ok_0[i]
            &&& forall|key: KeyModel, k: int|
                #![trigger call.accesses.contains(AccessModel::Read(key)), g.node(node).output_ids[k]]
                call.accesses.contains(AccessModel::Read(key)) && 0 <= k < g.node(
                    node,
                ).output_ids.len() ==> exists|id: DirtyKey| #[trigger]
                    dirty::interned(post.asked, key, id) && dirty::dependencies(
                        post.asked,
                        g.node(node).output_ids[k],
                    ).contains(id)
        }),
{
    let r = g.inputs_of(node)->Ok_0;
    let n = g.node(node);
    let (x, ids) = choose|x: Executed, ids: Seq<DirtyKey>|
        g.executes(node, r.args, x) && ids.len() == graph_model::read_keys(x.accesses).len()
            && #[trigger] g.finished(node, r, x, ids) == (post, Ok::<(), GraphErrorModel>(()));
    let results = x.results->Ok_0;
    assert forall|i: int| 0 <= i < n.output_names.len() implies post.node(
        node,
    ).outputs[#[trigger] n.output_names[i]] == results[i] by {
        assert(!graph_model::comes_again(n.output_names, i));
        lemma_stored(n.outputs, n.output_names, results, results.len(), i);
    }
    assert forall|key: KeyModel, k: int|
        #![trigger x.accesses.contains(AccessModel::Read(key)), g.node(node).output_ids[k]]
        x.accesses.contains(AccessModel::Read(key)) && 0 <= k < g.node(node).output_ids.len() implies (
    exists|id: DirtyKey| #[trigger]
        dirty::interned(post.asked, key, id) && dirty::dependencies(
            post.asked,
            g.node(node).output_ids[k],
        ).contains(id)) by {
        lemma_read_becomes_dependency(g, node, post, x, ids, key, k);
    }
}

/// The first of calls that recorded no access is noted, where there is one.
proof fn lemma_noted(calls: Seq<HostCall>, c: int)
    requires
        0 <= c < calls.len(),
        calls[c].accesses is Some,
        calls[c].accesses->0.len() == 0,
    ensures
        strict::noted_after(None, calls) is Some,
    decreases calls.len(),
{
    if c < calls.len() - 1 {
        lemma_noted(calls.drop_last(), c);
    }
}

/// In a strict graph a run of a function in which a host call records no access fails: with that
/// call, where the function itself does not fail. The node stays as it is.
pub proof fn law_silent_call_fails_strict_run(
    g: GraphView,
    node: NodeId,
    post: GraphView,
    res: Result<(), GraphErrorModel>,
    c: int,
)
    requires
        g.node_ran(node, post, res),
        g.strict_deps,
        g.node(node).kind is Tape,
        g.world.calls.len() <= c < post.world.calls.len(),
        post.world.calls[c].accesses is Some,
        post.world.calls[c].accesses->0.len() == 0,
    ensures
        post.nodes == g.nodes,
        ({
            let silent = strict::noted_after(None, vm::since(g.world.calls, post.world.calls));
            &&& silent is Some
            &&& res == Err::<(), GraphErrorModel>(GraphErrorModel::Trap) || res == Err::<
                (),
                GraphErrorModel,
            >(
                GraphErrorModel::StrictDepsViolation {
                    node,
                    symbol: (silent->0).0,
                    sig_hash: (silent->0).1,
                },
            )
        }),
{
    let r = g.inputs_of(node)->Ok_0;
    let (x, ids) = choose|x: Executed, ids: Seq<DirtyKey>|
        g.executes(node, r.args, x) && ids.len() == graph_model::read_keys(x.accesses).len()
            && #[trigger] g.finished(node, r, x, ids) == (post, res);
    let calls = vm::since(g.world.calls, x.world.calls);
    assert(post.world == x.world);
    assert(calls[c - g.world.calls.len()] == post.world.calls[c]);
    lemma_noted(calls, c - g.world.calls.len());
}

/// What is asked to find the nodes within the dependencies of outputs.
proof fn lemma_drain_asks(outs: Seq<DirtyKey>, drains: Seq<Seq<DrainedModel>>, k: nat, i: int)
    requires
        k <= outs.len(),
        0 <= i < graph_model::drain_asks(outs, drains, k).len(),
    ensures
        graph_model::drain_asks(outs, drains, k)[i] matches Asked::Drain { within: Some(id), .. }
            && outs.contains(id),
    decreases k,
{
    if k > 0 {
        let before = graph_model::drain_asks(outs, drains, (k - 1) as nat);
        if i < before.len() {
            lemma_drain_asks(outs, drains, (k - 1) as nat, i);
        } else {
            assert(outs.contains(outs[k - 1]));
        }
    }
}

/// What is asked to explain keys.
proof fn lemma_explain_asks(
    ds: Seq<DrainedModel>,
    paths: Seq<Option<Seq<KeyModel>>>,
    k: nat,
    i: int,
)
    requires
        0 <= i < graph_model::explain_asks(ds, paths, k).len(),
    ensures
        graph_model::explain_asks(ds, paths, k)[i] is Explain,
    decreases k,
{
    if k > 0 && i < graph_model::explain_asks(ds, paths, (k - 1) as nat).len() {
        lemma_explain_asks(ds, paths, (k - 1) as nat, i);
    }
}

/// Affected keys within the dependencies of one of the outputs were taken, or a key was explained.
pub open spec fn asked_within(outs: Seq<DirtyKey>, a: Asked) -> bool {
    match a {
        Asked::Explain { .. } => true,
        Asked::Drain { within: Some(id), .. } => outs.contains(id),
        _ => false,
    }
}

/// What is asked to report on the nodes within the dependencies of outputs.
proof fn lemma_report_asks(
    outs: Seq<DirtyKey>,
    drains: Seq<Seq<DrainedModel>>,
    paths: Seq<Seq<Option<Seq<KeyModel>>>>,
    mask: ReportDetailMask,
    n: nat,
    k: nat,
    i: int,
)
    requires
        k <= outs.len(),
        0 <= i < graph_model::report_asks(outs, drains, paths, mask, n, k).len(),
    ensures
        asked_within(outs, graph_model::report_asks(outs, drains, paths, mask, n, k)[i]),
    decreases k,
{
    if k > 0 {
        let before = graph_model::report_asks(outs, drains, paths, mask, n, (k - 1) as nat);
        let ds = graph_model::newly(drains, n, k - 1);
        if i < before.len() {
            lemma_report_asks(outs, drains, paths, mask, n, (k - 1) as nat, i);
        } else if i == before.len() {
            assert(outs.contains(outs[k - 1]));
        } else if mask.why() {
            lemma_explain_asks(ds, paths[k - 1], ds.len(), i - before.len() - 1);
        }
    }
}

/// Planning a run of one node takes only keys within the dependencies of its outputs from the
/// engine, and changes nothing else, so that other affected keys stay affected.
pub proof fn law_run_of_a_node_drains_within(
    g: GraphView,
    node: NodeId,
    nodes: Seq<NodeId>,
    mid: GraphView,
    i: int,
)
    requires
        g.planned_within(node, nodes, mid),
        g.asked.len() <= i < mid.asked.len(),
    ensures
        mid == (GraphView { asked: mid.asked, ..g }),
        mid.asked[i] matches Asked::Drain { within: Some(id), .. } && g.node(
            node,
        ).output_ids.contains(id),
{
    let outs = g.node(node).output_ids;
    let drains = choose|drains: Seq<Seq<DrainedModel>>|
        drains.len() == outs.len() && nodes == crate::plan::planned(
            #[trigger] graph_model::all_drained(drains, outs.len()),
            g.nodes.len(),
        ) && mid == g.ask(graph_model::drain_asks(outs, drains, outs.len()));
    lemma_drain_asks(outs, drains, outs.len(), i - g.asked.len());
}

/// Whether what was asked from number `i` on gave back a key of an output of a node.
pub open spec fn gave_back(asked: Seq<Asked>, i: int, node: NodeId) -> bool {
    exists|j: int, k: int| #[trigger] gave_back_in(asked, i, j, k, node)
}

/// Whether key number `k` of the drain that was asked as number `j`, from number `i` on, is an
/// output of a node.
pub open spec fn gave_back_in(asked: Seq<Asked>, i: int, j: int, k: int, node: NodeId) -> bool {
    i <= j < asked.len() && match asked[j] {
        Asked::Drain { keys, .. } => 0 <= k < keys.len() && crate::plan::node_of(keys[k]) == Some(
            node,
        ),
        _ => false,
    }
}

proof fn lemma_all_drained(outs: Seq<DirtyKey>, drains: Seq<Seq<DrainedModel>>, n: nat, d: DrainedModel)
    requires
        n <= drains.len(),
        graph_model::all_drained(drains, n).contains(d),
    ensures
        exists|j: int, k: int|
            0 <= j < n && 0 <= k < drains[j].len() && #[trigger] drains[j][k] == d
                && graph_model::drain_asks(outs, drains, n)[j] == (Asked::Drain {
                within: Some(outs[j]),
                traced: false,
                keys: drains[j],
            }) && graph_model::drain_asks(outs, drains, n).len() == n,
    decreases n,
{
    lemma_drain_asks_len(outs, drains, n);
    if n > 0 {
        let before = graph_model::all_drained(drains, (n - 1) as nat);
        let all = graph_model::all_drained(drains, n);
        let i = choose|i: int| 0 <= i < all.len() && all[i] == d;
        if i < before.len() {
            assert(before.contains(d)) by {
                assert(before[i] == d);
            }
            lemma_all_drained(outs, drains, (n - 1) as nat, d);
            let (j, k) = choose|j: int, k: int|
                0 <= j < n - 1 && 0 <= k < drains[j].len() && #[trigger] drains[j][k] == d
                    && graph_model::drain_asks(outs, drains, (n - 1) as nat)[j] == (Asked::Drain {
                    within: Some(outs[j]),
                    traced: false,
                    keys: drains[j],
                });
            assert(drains[j][k] == d);
        } else {
            assert(drains[n - 1][i - before.len()] == d);
        }
    }
}

proof fn lemma_drain_asks_len(outs: Seq<DirtyKey>, drains: Seq<Seq<DrainedModel>>, n: nat)
    ensures
        graph_model::drain_asks(outs, drains, n).len() == n,
    decreases n,
{
    if n > 0 {
        lemma_drain_asks_len(outs, drains, (n - 1) as nat);
    }
}

proof fn lemma_drained(drains: Seq<Seq<DrainedModel>>, n: nat, j: int, k: int)
    requires
        n <= drains.len(),
        0 <= j < n,
        0 <= k < drains[j].len(),
    ensures
        graph_model::all_drained(drains, n).contains(drains[j][k]),
    decreases n,
{
    let before = graph_model::all_drained(drains, (n - 1) as nat);
    let all = graph_model::all_drained(drains, n);
    if j < n - 1 {
        lemma_drained(drains, (n - 1) as nat, j, k);
        let i = choose|i: int| 0 <= i < before.len() && before[i] == drains[j][k];
        assert(all[i] == drains[j][k]);
    } else {
        assert(all[before.len() + k] == drains[j][k]);
    }
}

proof fn lemma_drain_asks_at(outs: Seq<DirtyKey>, drains: Seq<Seq<DrainedModel>>, n: nat, j: int)
    requires
        0 <= j < n,
    ensures
        graph_model::drain_asks(outs, drains, n)[j] == (Asked::Drain {
            within: Some(outs[j]),
            traced: false,
            keys: drains[j],
        }),
    decreases n,
{
    lemma_drain_asks_len(outs, drains, (n - 1) as nat);
    if j < n - 1 {
        lemma_drain_asks_at(outs, drains, (n - 1) as nat, j);
    }
}

/// Where running one node gets a key of a node from the engine and succeeds, that node runs once.
pub proof fn law_node_run_runs_affected_once(
    g: GraphView,
    node: NodeId,
    nodes: Seq<NodeId>,
    mid: GraphView,
    post: GraphView,
    affected: NodeId,
)
    requires
        g.planned_within(node, nodes, mid),
        mid.plan_ran(nodes, post, Ok::<(), GraphErrorModel>(())),
        g.has(affected),
        gave_back(mid.asked, g.asked.len() as int, affected),
    ensures
        post.node(affected).run_count == graph_model::counted(g.node(affected).run_count),
{
    let outs = g.node(node).output_ids;
    let n = g.nodes.len();
    let drains = choose|drains: Seq<Seq<DrainedModel>>|
        drains.len() == outs.len() && nodes == crate::plan::planned(
            #[trigger] graph_model::all_drained(drains, outs.len()),
            n,
        ) && mid == g.ask(graph_model::drain_asks(outs, drains, outs.len()));
    let all = graph_model::all_drained(drains, outs.len());
    let asks = graph_model::drain_asks(outs, drains, outs.len());
    lemma_drain_asks_len(outs, drains, outs.len());
    let (j, k) = choose|j: int, k: int| #[trigger]
        gave_back_in(mid.asked, g.asked.len() as int, j, k, affected);
    let i = j - g.asked.len();
    assert(mid.asked[j] == asks[i]);
    lemma_drain_asks_at(outs, drains, outs.len(), i);
    lemma_drained(drains, outs.len(), i, k);
    let m = choose|m: int| 0 <= m < all.len() && all[m] == drains[i][k];
    crate::plan::law_plan_holds_every_affected_node(all, n, m);
    crate::plan::law_plan_runs_each_node_once(all, n);
    let at = choose|at: int| 0 <= at < nodes.len() && nodes[at] == affected;
    law_planned_nodes_run_once(mid, nodes, post, at);
}

/// Running one node leaves other work for the next full run. A node of which the run of another gets
/// no key from the engine stays as it is in that run, whether the run succeeds or not: its outputs,
/// what it read and how often it ran. Where the full run behind it gets a key of that node and
/// succeeds, the node runs once in it.
pub proof fn law_node_run_leaves_other_work(
    g: GraphView,
    node: NodeId,
    nodes: Seq<NodeId>,
    mid: GraphView,
    between: GraphView,
    res: Result<(), GraphErrorModel>,
    later: Seq<NodeId>,
    drained: GraphView,
    post: GraphView,
    other: NodeId,
)
    requires
        g.planned_within(node, nodes, mid),
        mid.plan_ran(nodes, between, res),
        between.planned_all(later, drained),
        drained.plan_ran(later, post, Ok::<(), GraphErrorModel>(())),
        g.has(other),
        !gave_back(mid.asked, g.asked.len() as int, other),
        gave_back(drained.asked, between.asked.len() as int, other),
    ensures
        mid == (GraphView { asked: mid.asked, ..g }),
        forall|i: int|
            g.asked.len() <= i < mid.asked.len() ==> asked_within(
                g.node(node).output_ids,
                #[trigger] mid.asked[i],
            ),
        between.node(other) == g.node(other),
        between.node(other).run_count == g.node(other).run_count,
        post.node(other).run_count == graph_model::counted(g.node(other).run_count),
{
    let outs = g.node(node).output_ids;
    let n = g.nodes.len();
    let drains = choose|drains: Seq<Seq<DrainedModel>>|
        drains.len() == outs.len() && nodes == crate::plan::planned(
            #[trigger] graph_model::all_drained(drains, outs.len()),
            n,
        ) && mid == g.ask(graph_model::drain_asks(outs, drains, outs.len()));
    let asks = graph_model::drain_asks(outs, drains, outs.len());
    assert forall|i: int| g.asked.len() <= i < mid.asked.len() implies asked_within(
        outs,
        #[trigger] mid.asked[i],
    ) by {
        law_run_of_a_node_drains_within(g, node, nodes, mid, i);
    }
    let all = graph_model::all_drained(drains, outs.len());
    if nodes.contains(other) {
        let c = crate::plan::chosen(all, n, seq![]);
        crate::plan::lemma_chosen(all, n, seq![]);
        let i = choose|i: int| 0 <= i < nodes.len() && nodes[i] == other;
        let d = c[i];
        lemma_all_drained(outs, drains, outs.len(), d);
        let (j, k) = choose|j: int, k: int|
            0 <= j < outs.len() && 0 <= k < drains[j].len() && #[trigger] drains[j][k] == d
                && asks[j] == (Asked::Drain {
                within: Some(outs[j]),
                traced: false,
                keys: drains[j],
            });
        lemma_drain_asks_len(outs, drains, outs.len());
        assert(mid.asked[g.asked.len() + j] == asks[j]);
        assert(gave_back_in(mid.asked, g.asked.len() as int, g.asked.len() + j, k, other));
        assert(false);
    }
    assert(mid.has(other));
    law_unplanned_nodes_stay(mid, nodes, between, res, other);
    law_plan_keeps_wiring(mid, nodes, between, res);
    let keys = choose|keys: Seq<DrainedModel>|
        later == #[trigger] crate::plan::planned(keys, between.nodes.len()) && drained
            == between.ask(seq![Asked::Drain { within: None, traced: false, keys }]);
    let (j, k) = choose|j: int, k: int| #[trigger]
        gave_back_in(drained.asked, between.asked.len() as int, j, k, other);
    assert(drained.asked[j] == (Asked::Drain { within: None, traced: false, keys }));
    crate::plan::law_plan_holds_every_affected_node(keys, between.nodes.len(), k);
    crate::plan::law_plan_runs_each_node_once(keys, between.nodes.len());
    let at = choose|at: int| 0 <= at < later.len() && later[at] == other;
    law_planned_nodes_run_once(drained, later, post, at);
}

/// Planning a run of one node with a report takes only keys within the dependencies of its outputs
/// from the engine, and asks for explanations besides, so that other affected keys stay affected.
pub proof fn law_report_of_a_node_drains_within(
    g: GraphView,
    node: NodeId,
    mask: ReportDetailMask,
    ds: Seq<DetailModel>,
    mid: GraphView,
    i: int,
)
    requires
        g.reported_within(node, mask, ds, mid),
        g.asked.len() <= i < mid.asked.len(),
    ensures
        mid == (GraphView { asked: mid.asked, ..g }),
        asked_within(g.node(node).output_ids, mid.asked[i]),
{
    let outs = g.node(node).output_ids;
    let n = g.nodes.len();
    let (drains, paths) = choose|
        drains: Seq<Seq<DrainedModel>>,
        paths: Seq<Seq<Option<Seq<KeyModel>>>>,
    |
        drains.len() == outs.len() && paths.len() == outs.len() && ds
            == #[trigger] graph_model::report_details(drains, paths, mask, n, outs.len()) && mid
            == g.ask(graph_model::report_asks(outs, drains, paths, mask, n, outs.len()));
    lemma_report_asks(outs, drains, paths, mask, n, outs.len(), i - g.asked.len());
}

/// Where nothing is affected, nothing runs.
pub proof fn law_nothing_affected_runs_nothing(
    g: GraphView,
    post: GraphView,
    res: Result<(), GraphErrorModel>,
)
    requires
        g.plan_ran(crate::plan::planned(seq![], g.nodes.len()), post, res),
    ensures
        res is Ok,
        post == g,
{
    assert(crate::plan::planned(seq![], g.nodes.len()) =~= Seq::<NodeId>::empty());
    reveal(graph_model::ran_via);
}

/// Once an output is connected to an input of a node, every output of the node depends on it and is
/// marked dirty.
pub proof fn law_connecting_orders_nodes(
    g: GraphView,
    from: NodeId,
    output: Seq<char>,
    to: NodeId,
    input: Seq<char>,
    post: GraphView,
    k: int,
)
    requires
        g.connected(from, output, to, input, post),
        g.has(to),
        0 <= k < g.node(to).output_ids.len(),
    ensures
        exists|id: DirtyKey| #[trigger]
            dirty::interned(post.asked, graph_model::output_key(from, output), id)
                && dirty::dependencies(post.asked, g.node(to).output_ids[k]).contains(id),
        post.asked.contains(Asked::MarkDirty { id: g.node(to).output_ids[k] }),
{
    let outs = g.node(to).output_ids;
    let id = choose|id: DirtyKey|
        post == g.put(
            to,
            graph_model::bind(
                g.node(to),
                input,
                BindingModel::FromNode { node: from, output, read_id: id },
            ),
        ).ask(
            seq![#[trigger] graph_model::asked_output(from, output, id)] + graph_model::wire_asks(
                outs,
                id,
                outs.len(),
            ),
        );
    let e = graph_model::asked_output(from, output, id);
    let first = g.asked + seq![e];
    let wires = graph_model::wire_asks(outs, id, outs.len());
    assert(post.asked =~= first + wires);
    assert(post.asked[g.asked.len() as int] == e);
    lemma_wired(first, outs, id, outs.len(), k);
    assert(dirty::interned(post.asked, graph_model::output_key(from, output), id));
}

/// What is wired depends on the source and is marked dirty.
pub proof fn lemma_wired(asked: Seq<Asked>, outs: Seq<DirtyKey>, src: DirtyKey, n: nat, k: int)
    requires
        n <= outs.len(),
        0 <= k < n,
    ensures
        dirty::dependencies(asked + graph_model::wire_asks(outs, src, n), outs[k]).contains(src),
        (asked + graph_model::wire_asks(outs, src, n)).contains(Asked::MarkDirty { id: outs[k] }),
    decreases n,
{
    let before = graph_model::wire_asks(outs, src, (n - 1) as nat);
    let dep = Asked::AddDependency { id: outs[n - 1], on: src };
    let mark = Asked::MarkDirty { id: outs[n - 1] };
    let all = asked + graph_model::wire_asks(outs, src, n);
    assert(all =~= (asked + before).push(dep).push(mark));
    assert(all.drop_last() =~= (asked + before).push(dep));
    assert(all.drop_last().drop_last() =~= asked + before);
    reveal_with_fuel(dirty::dependencies, 3);
    if k < n - 1 {
        lemma_wired(asked, outs, src, (n - 1) as nat, k);
        let m = Asked::MarkDirty { id: outs[k] };
        let i = choose|i: int| 0 <= i < (asked + before).len() && (asked + before)[i] == m;
        assert(all[i] == m);
    } else {
        assert(all[all.len() - 1] == mark);
    }
}

/// Keys stand in the order of their dependencies: none stands before a key that it depends on.
pub open spec fn in_order(asked: Seq<Asked>, keys: Seq<DrainedModel>) -> bool {
    forall|i: int, j: int|
        0 <= i < keys.len() && 0 <= j < keys.len() && i != j && dirty::dependencies(
            asked,
            (#[trigger] keys[j]).id,
        ).contains((#[trigger] keys[i]).id) ==> i < j
}

/// The keys of nodes have the numbers of their outputs.
pub open spec fn of_outputs(g: GraphView, keys: Seq<DrainedModel>) -> bool {
    forall|i: int|
        0 <= i < keys.len() ==> (crate::plan::node_of(#[trigger] keys[i]) matches Some(node)
            ==> g.has(node) ==> g.node(node).output_ids.contains(keys[i].id))
}

/// Each output of a node depends on the outputs that its inputs are connected to, whether it ran or
/// not. This holds of every graph whose engine gives no two keys the same number.
pub proof fn law_connections_are_dependencies(g: GraphView, node: NodeId, j: int, k: int)
    requires
        g.consistent(),
        dirty::distinct_numbers(g.asked),
        g.has(node),
        0 <= j < g.node(node).inputs.len(),
        g.node(node).inputs[j] matches Some(BindingModel::FromNode { .. }),
        0 <= k < g.node(node).output_ids.len(),
    ensures
        dirty::dependencies(g.asked, g.node(node).output_ids[k]).contains(
            g.node(node).inputs[j]->0->FromNode_read_id,
        ),
{
    assert(graph_model::wired(g.asked, g.nodes[node.0 as int]));
    assert(graph_model::source(g.node(node).inputs[j]) is Some);
}

/// Where the engine gives affected keys in the order of their dependencies, a planned node stands
/// behind every other planned node that one of its inputs comes from: what it reads is computed
/// before. The engine gives the keys of nodes with the numbers of their outputs, and no two keys the
/// same number; the output that the input is connected to is among the keys.
pub proof fn law_plan_follows_connections(
    g: GraphView,
    keys: Seq<DrainedModel>,
    at: int,
    j: int,
    s: int,
    from: NodeId,
)
    requires
        g.consistent(),
        dirty::distinct_numbers(g.asked),
        in_order(g.asked, keys),
        of_outputs(g, keys),
        0 <= at < crate::plan::planned(keys, g.nodes.len()).len(),
        ({
            let node = crate::plan::planned(keys, g.nodes.len())[at];
            let n = g.node(node);
            &&& node != from
            &&& 0 <= j < n.inputs.len()
            &&& n.inputs[j] matches Some(BindingModel::FromNode { node: up, .. }) && up == from
            &&& 0 <= s < keys.len()
            &&& keys[s].id == n.inputs[j]->0->FromNode_read_id
            &&& crate::plan::node_of(keys[s]) == Some(from)
        }),
        g.has(from),
    ensures
        crate::plan::planned(keys, g.nodes.len()).take(at).contains(from),
{
    let len = g.nodes.len();
    let all = crate::plan::planned(keys, len);
    let node = all[at];
    let n = g.node(node);
    let head = keys.take(s + 1);
    let first = crate::plan::planned(head, len);
    let c = crate::plan::chosen(keys, len, seq![]);
    crate::plan::lemma_chosen(keys, len, seq![]);
    assert(all[at] == crate::plan::node_of(c[at])->0);
    assert(g.has(node));
    assert(graph_model::node_ok(g.asked, node.0 as int, g.nodes[node.0 as int]));
    assert(graph_model::node_ok(g.asked, from.0 as int, g.nodes[from.0 as int]));
    assert forall|i: int| 0 <= i <= s implies crate::plan::node_of(#[trigger] keys[i]) != Some(node) by {
        if crate::plan::node_of(keys[i]) == Some(node) {
            let k = choose|k: int| 0 <= k < n.output_ids.len() && n.output_ids[k] == keys[i].id;
            law_connections_are_dependencies(g, node, j, k);
            assert(dirty::dependencies(g.asked, keys[i].id).contains(keys[s].id));
            assert(i != s);
            assert(s < i);
        }
    }
    crate::plan::law_plan_holds_every_affected_node(head, len, s);
    assert(head + keys.skip(s + 1) =~= keys);
    crate::plan::law_plan_keeps_order(head, keys.skip(s + 1), len);
    let b = choose|b: int| 0 <= b < first.len() && first[b] == from;
    assert(all[b] == from);
    if at < first.len() {
        let d = crate::plan::chosen(head, len, seq![]);
        crate::plan::lemma_chosen(head, len, seq![]);
        assert(first[at] == crate::plan::node_of(d[at])->0);
        assert(first[at] == all[at]);
        let i = choose|i: int| 0 <= i < head.len() && head[i] == d[at];
        assert(keys[i] == d[at]);
        assert(false);
    }
    assert(all.take(at)[b] == from);
}

} // verus!
