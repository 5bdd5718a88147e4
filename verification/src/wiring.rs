//! What wiring a graph and running a node mean.

use vstd::prelude::*;

use crate::access::{AccessModel, KeyModel, NodeId};
use crate::dirty::{Asked, DirtyKey, DrainedModel};
use crate::graph_model;
use crate::graph_model::{
    BindingModel, Executed, GraphErrorModel, GraphView, KindModel, NodeModel, Resolved,
};
use crate::plan;
use crate::report::ReportDetailMask;
use crate::value::ValueModel;

verus! {

// ---------------------------------------------------------------------------------------------
// Wires.
// ---------------------------------------------------------------------------------------------

proof fn lemma_output_asks(node: NodeId, names: Seq<Seq<char>>, ids: Seq<DirtyKey>, k: nat, i: int)
    requires
        0 <= i < k,
    ensures
        graph_model::output_asks(node, names, ids, k).len() == 2 * k,
        graph_model::output_asks(node, names, ids, k)[2 * i] == (Asked::Intern {
            key: KeyModel::NodeOutput { node, output: names[i] },
            id: ids[i],
        }),
        graph_model::output_asks(node, names, ids, k)[2 * i + 1] == (Asked::MarkDirty {
            id: ids[i],
        }),
    decreases k,
{
    reveal_with_fuel(graph_model::output_asks, 2);
    if k > 1 {
        lemma_output_asks(
            node,
            names,
            ids,
            (k - 1) as nat,
            if i < k - 1 {
                i
            } else {
                0
            },
        );
    }
}

/// A new node stands behind those that there are, which stay. None of its inputs is bound, it has
/// no value in any output and has not run. Of each of its outputs the engine gave the number, in
/// order, and each was marked dirty.
pub proof fn law_new_node(
    g: GraphView,
    kind: KindModel,
    input_names: Seq<Seq<char>>,
    output_names: Seq<Seq<char>>,
    ids: Seq<DirtyKey>,
    i: int,
)
    requires
        g.nodes.len() <= u64::MAX,
    ensures
        ({
            let post = g.with_node(kind, input_names, output_names, ids);
            let n = post.nodes[g.nodes.len() as int];
            let id = NodeId(g.nodes.len() as u64);
            &&& post.nodes.len() == g.nodes.len() + 1
            &&& post.nodes.take(g.nodes.len() as int) == g.nodes
            &&& n.kind == kind
            &&& n.input_names == input_names
            &&& n.output_names == output_names
            &&& n.output_ids == ids
            &&& n.inputs.len() == input_names.len()
            &&& forall|k: int| 0 <= k < n.inputs.len() ==> (#[trigger] n.inputs[k]) is None
            &&& n.outputs == Map::<Seq<char>, ValueModel>::empty()
            &&& n.run_count == 0
            &&& n.last_access is None
            &&& n.last_read_ids.len() == 0
            &&& post.world == g.world
            &&& post.input_ids == g.input_ids
            &&& post.strict_deps == g.strict_deps
            &&& post.collect_access == g.collect_access
            &&& post.limits == g.limits
            &&& g.asked =~= post.asked.take(g.asked.len() as int)
            &&& 0 <= i < output_names.len() ==> post.asked.len() == g.asked.len() + 2
                * output_names.len() && post.asked[g.asked.len() + 2 * i] == (Asked::Intern {
                key: KeyModel::NodeOutput { node: id, output: output_names[i] },
                id: ids[i],
            }) && post.asked[g.asked.len() + 2 * i + 1] == (Asked::MarkDirty { id: ids[i] })
        }),
{
    let post = g.with_node(kind, input_names, output_names, ids);
    assert(post.nodes.take(g.nodes.len() as int) =~= g.nodes);
    if 0 <= i < output_names.len() {
        lemma_output_asks(NodeId(g.nodes.len() as u64), output_names, ids, output_names.len(), i);
    }
}

/// Everything of a node but its inputs is as before.
pub open spec fn only_inputs_differ(a: NodeModel, b: NodeModel) -> bool {
    &&& a.kind == b.kind
    &&& a.input_names == b.input_names
    &&& a.inputs.len() == b.inputs.len()
    &&& a.output_names == b.output_names
    &&& a.output_ids == b.output_ids
    &&& a.outputs == b.outputs
    &&& a.last_access == b.last_access
    &&& a.last_read_ids == b.last_read_ids
    &&& a.deps_initialized == b.deps_initialized
    &&& a.run_count == b.run_count
}

/// Setting an input binds all inputs of that name of the node to the value, and nothing else of any
/// node changes. The engine gave the number of the input. Where the node has no such input nothing
/// changes.
pub proof fn law_set_input(
    g: GraphView,
    node: NodeId,
    name: Seq<char>,
    value: ValueModel,
    post: GraphView,
    k: int,
)
    requires
        g.input_set(node, name, value, post),
        node.0 < g.nodes.len(),
        g.nodes[node.0 as int].inputs.len() == g.nodes[node.0 as int].input_names.len(),
        0 <= k < g.nodes[node.0 as int].input_names.len(),
    ensures
        ({
            let a = g.nodes[node.0 as int];
            let b = post.nodes[node.0 as int];
            &&& post.nodes.len() == g.nodes.len()
            &&& only_inputs_differ(a, b)
            &&& forall|j: int|
                0 <= j < g.nodes.len() && j != node.0 ==> (#[trigger] post.nodes[j]) == g.nodes[j]
            &&& a.input_names[k] == name ==> (b.inputs[k] matches Some(
                BindingModel::External { value: v, read_id },
            ) && v == value && post.asked == g.asked.push(
                Asked::Intern { key: KeyModel::Input(name), id: read_id },
            ))
            &&& a.input_names[k] != name ==> b.inputs[k] == a.inputs[k]
            &&& !a.input_names.contains(name) ==> post == g
            &&& post.world == g.world
            &&& post.input_ids == g.input_ids
        }),
{
    let a = g.nodes[node.0 as int];
    if a.input_names.contains(name) {
        let id = choose|id: DirtyKey|
            post == g.put(
                node,
                graph_model::bind(
                    g.node(node),
                    name,
                    BindingModel::External { value, read_id: id },
                ),
            ).ask(seq![#[trigger] graph_model::asked_input(name, id)]);
        assert(post.asked =~= g.asked.push(
            Asked::Intern { key: KeyModel::Input(name), id },
        ));
    }
}

proof fn lemma_wire_asks(outs: Seq<DirtyKey>, src: DirtyKey, k: nat, i: int)
    requires
        0 <= i < k,
    ensures
        graph_model::wire_asks(outs, src, k).len() == 2 * k,
        graph_model::wire_asks(outs, src, k)[2 * i] == (Asked::AddDependency {
            id: outs[i],
            on: src,
        }),
        graph_model::wire_asks(outs, src, k)[2 * i + 1] == (Asked::MarkDirty { id: outs[i] }),
    decreases k,
{
    reveal_with_fuel(graph_model::wire_asks, 2);
    if k > 1 {
        lemma_wire_asks(
            outs,
            src,
            (k - 1) as nat,
            if i < k - 1 {
                i
            } else {
                0
            },
        );
    }
}

/// Connecting an output binds all inputs of that name of the other node to it, and nothing else of
/// any node changes. The engine gave the number of the output, and every output of the other node
/// was made to depend on it and marked dirty.
pub proof fn law_connect(
    g: GraphView,
    from: NodeId,
    output: Seq<char>,
    to: NodeId,
    input: Seq<char>,
    post: GraphView,
    k: int,
    i: int,
)
    requires
        g.connected(from, output, to, input, post),
        to.0 < g.nodes.len(),
        g.nodes[to.0 as int].inputs.len() == g.nodes[to.0 as int].input_names.len(),
        0 <= k < g.nodes[to.0 as int].input_names.len(),
        0 <= i < g.nodes[to.0 as int].output_ids.len(),
    ensures
        ({
            let a = g.nodes[to.0 as int];
            let b = post.nodes[to.0 as int];
            &&& post.nodes.len() == g.nodes.len()
            &&& only_inputs_differ(a, b)
            &&& forall|j: int|
                0 <= j < g.nodes.len() && j != to.0 ==> (#[trigger] post.nodes[j]) == g.nodes[j]
            &&& a.input_names[k] == input ==> (b.inputs[k] matches Some(
                BindingModel::FromNode { node, output: o, read_id },
            ) && node == from && o == output && post.asked[g.asked.len() as int] == (Asked::Intern {
                key: KeyModel::NodeOutput { node: from, output },
                id: read_id,
            }) && post.asked[g.asked.len() + 1 + 2 * i] == (Asked::AddDependency {
                id: a.output_ids[i],
                on: read_id,
            }) && post.asked[g.asked.len() + 2 + 2 * i] == (Asked::MarkDirty {
                id: a.output_ids[i],
            }))
            &&& a.input_names[k] != input ==> b.inputs[k] == a.inputs[k]
            &&& post.world == g.world
            &&& post.input_ids == g.input_ids
        }),
{
    let a = g.nodes[to.0 as int];
    let id = choose|id: DirtyKey|
        post == g.put(
            to,
            graph_model::bind(
                g.node(to),
                input,
                BindingModel::FromNode { node: from, output, read_id: id },
            ),
        ).ask(
            seq![#[trigger] graph_model::asked_output(from, output, id)] + graph_model::wire_asks(
                g.node(to).output_ids,
                id,
                g.node(to).output_ids.len(),
            ),
        );
    lemma_wire_asks(a.output_ids, id, a.output_ids.len(), i);
    let w = graph_model::wire_asks(a.output_ids, id, a.output_ids.len());
    assert(post.asked =~= g.asked + (seq![graph_model::asked_output(from, output, id)] + w));
    assert(post.asked[g.asked.len() + 1 + 2 * i] == w[2 * i]);
    assert(post.asked[g.asked.len() + 2 + 2 * i] == w[2 * i + 1]);
}

// ---------------------------------------------------------------------------------------------
// Inputs.
// ---------------------------------------------------------------------------------------------

/// The value that an input is bound to, where there is one.
pub open spec fn bound_value(g: GraphView, n: NodeModel, k: int) -> Option<ValueModel> {
    match n.inputs[k] {
        Some(BindingModel::External { value, .. }) => Some(value),
        Some(BindingModel::FromNode { node, output, .. }) => if node.0 < g.nodes.len()
            && g.nodes[node.0 as int].outputs.contains_key(output) {
            Some(g.nodes[node.0 as int].outputs[output])
        } else {
            None
        },
        None => None,
    }
}

proof fn lemma_resolved(g: GraphView, node: NodeId, k: nat)
    requires
        node.0 < g.nodes.len(),
        k <= g.nodes[node.0 as int].input_names.len(),
    ensures
        g.resolved(node, k) is Ok <==> forall|j: int|
            0 <= j < k ==> (#[trigger] bound_value(g, g.nodes[node.0 as int], j)) is Some,
        g.resolved(node, k) matches Ok(r) ==> r.args.len() == k && r.read_ids.len() == k
            && r.reads.len() == k && forall|j: int|
            0 <= j < k ==> Some(#[trigger] r.args[j]) == bound_value(g, g.nodes[node.0 as int], j),
        g.resolved(node, k) matches Ok(r) ==> forall|j: int|
            0 <= j < k ==> (#[trigger] r.reads[j]) == AccessModel::Read(
                match g.nodes[node.0 as int].inputs[j] {
                    Some(BindingModel::FromNode { node: up, output, .. }) => KeyModel::NodeOutput {
                        node: up,
                        output,
                    },
                    _ => KeyModel::Input(g.nodes[node.0 as int].input_names[j]),
                },
            ),
    decreases k,
{
    if k > 0 {
        lemma_resolved(g, node, (k - 1) as nat);
        let n = g.nodes[node.0 as int];
        assert(bound_value(g, n, k - 1) is Some <==> g.read_input(node, k - 1) is Ok);
        if let Ok(r) = g.resolved(node, k) {
            let q = g.resolved(node, (k - 1) as nat)->Ok_0;
            assert forall|j: int| 0 <= j < k implies Some(#[trigger] r.args[j]) == bound_value(
                g,
                n,
                j,
            ) by {
                if j < k - 1 {
                    assert(r.args[j] == q.args[j]);
                }
            }
            assert forall|j: int| 0 <= j < k implies (#[trigger] r.reads[j]) == AccessModel::Read(
                match n.inputs[j] {
                    Some(BindingModel::FromNode { node: up, output, .. }) => KeyModel::NodeOutput {
                        node: up,
                        output,
                    },
                    _ => KeyModel::Input(n.input_names[j]),
                },
            ) by {
                if j < k - 1 {
                    assert(r.reads[j] == q.reads[j]);
                }
            }
        }
    }
}

/// A node gets the values that its inputs are bound to, in the order of its inputs: those that were
/// set, and those that other nodes left in the outputs that are connected. It cannot run where one
/// of them is not there.
pub proof fn law_inputs_in_order(g: GraphView, node: NodeId)
    requires
        node.0 < g.nodes.len(),
    ensures
        ({
            let n = g.nodes[node.0 as int];
            &&& g.inputs_of(node) is Ok <==> forall|j: int|
                0 <= j < n.input_names.len() ==> (#[trigger] bound_value(g, n, j)) is Some
            &&& g.inputs_of(node) matches Ok(r) ==> r.args.len() == n.input_names.len() && forall|
                j: int,
            |
                0 <= j < n.input_names.len() ==> Some(#[trigger] r.args[j]) == bound_value(g, n, j)
        }),
{
    lemma_resolved(g, node, g.nodes[node.0 as int].input_names.len());
}

proof fn lemma_first_missing(g: GraphView, node: NodeId, k: nat, j: int)
    requires
        node.0 < g.nodes.len(),
        0 <= j < k <= g.nodes[node.0 as int].input_names.len(),
        bound_value(g, g.nodes[node.0 as int], j) is None,
        forall|i: int|
            0 <= i < j ==> (#[trigger] bound_value(g, g.nodes[node.0 as int], i)) is Some,
    ensures
        g.resolved(node, k) == Err::<Resolved, GraphErrorModel>(g.read_input(node, j)->Err_0),
        g.read_input(node, j) is Err,
    decreases k,
{
    if k - 1 > j {
        lemma_first_missing(g, node, (k - 1) as nat, j);
    } else {
        lemma_resolved(g, node, (k - 1) as nat);
    }
}

/// Where an input of a node is not there, the run fails for the first such input and changes
/// nothing: it is missing where it is not bound, and what it is connected to is missing where the
/// other node has no such output yet.
pub proof fn law_missing_input(
    g: GraphView,
    node: NodeId,
    post: GraphView,
    res: Result<(), GraphErrorModel>,
    j: int,
)
    requires
        node.0 < g.nodes.len(),
        g.node_ran(node, post, res),
        0 <= j < g.nodes[node.0 as int].input_names.len(),
        bound_value(g, g.nodes[node.0 as int], j) is None,
        forall|i: int|
            0 <= i < j ==> (#[trigger] bound_value(g, g.nodes[node.0 as int], i)) is Some,
    ensures
        post == g,
        match g.nodes[node.0 as int].inputs[j] {
            Some(BindingModel::FromNode { node: up, output, .. }) => if up.0 >= g.nodes.len() {
                res == Err::<(), GraphErrorModel>(GraphErrorModel::BadNodeId)
            } else {
                res == Err::<(), GraphErrorModel>(
                    GraphErrorModel::MissingUpstreamOutput { node: up, name: output },
                )
            },
            _ => res == Err::<(), GraphErrorModel>(
                GraphErrorModel::MissingInput {
                    node,
                    name: g.nodes[node.0 as int].input_names[j],
                },
            ),
        },
{
    lemma_first_missing(g, node, g.nodes[node.0 as int].input_names.len(), j);
}

// ---------------------------------------------------------------------------------------------
// Runs.
// ---------------------------------------------------------------------------------------------

/// A run that fails leaves every node as it was.
pub proof fn law_failed_run_keeps_nodes(
    g: GraphView,
    node: NodeId,
    post: GraphView,
    e: GraphErrorModel,
)
    requires
        g.node_ran(node, post, Err::<(), GraphErrorModel>(e)),
    ensures
        post.nodes == g.nodes,
        post.input_ids == g.input_ids,
        post.limits == g.limits,
{
}

/// What a node gives back decides how its run ends: a failure is the failure of the run, and as many
/// results as the node has outputs end it well, unless a host call of a program recorded no access
/// where every one has to.
pub proof fn law_run_result(
    g: GraphView,
    node: NodeId,
    r: Resolved,
    x: Executed,
    ids: Seq<DirtyKey>,
)
    requires
        node.0 < g.nodes.len(),
    ensures
        ({
            let n = g.nodes[node.0 as int];
            let res = g.finished(node, r, x, ids).1;
            match x.results {
                Err(e) => res == Err::<(), GraphErrorModel>(e),
                Ok(vs) => if g.strict_deps && n.kind is Tape && x.silent is Some {
                    res matches Err(GraphErrorModel::StrictDepsViolation {
                        node: at,
                        symbol,
                        sig_hash,
                    }) && at == node && x.silent == Some((symbol, sig_hash))
                } else if vs.len() == n.output_names.len() {
                    res is Ok
                } else {
                    res == Err::<(), GraphErrorModel>(GraphErrorModel::BadOutputArity { node })
                },
            }
        }),
{
}

/// The accesses of a run that ended well are kept where they are collected: the reads of the inputs
/// in order, those that were recorded meanwhile, and a write of each output in order.
pub proof fn law_run_log(
    g: GraphView,
    node: NodeId,
    r: Resolved,
    x: Executed,
    ids: Seq<DirtyKey>,
    i: int,
)
    requires
        node.0 < g.nodes.len(),
        g.inputs_of(node) == Ok::<Resolved, GraphErrorModel>(r),
        g.finished(node, r, x, ids).1 is Ok,
    ensures
        ({
            let n = g.nodes[node.0 as int];
            let post = g.finished(node, r, x, ids).0.nodes[node.0 as int];
            let inputs = n.input_names.len();
            let mid = x.accesses.len();
            &&& !g.collect_access ==> post.last_access is None
            &&& g.collect_access ==> {
                &&& post.last_access matches Some(log)
                &&& log.len() == inputs + mid + n.output_names.len()
                &&& 0 <= i < inputs ==> log[i] == AccessModel::Read(
                    match n.inputs[i] {
                        Some(BindingModel::FromNode { node: up, output, .. }) => {
                            KeyModel::NodeOutput { node: up, output }
                        },
                        _ => KeyModel::Input(n.input_names[i]),
                    },
                )
                &&& 0 <= i < mid ==> log[inputs + i] == x.accesses[i]
                &&& 0 <= i < n.output_names.len() ==> log[inputs + mid + i] == AccessModel::Write(
                    KeyModel::NodeOutput { node, output: n.output_names[i] },
                )
            }
        }),
{
    lemma_resolved(g, node, g.nodes[node.0 as int].input_names.len());
}

/// The keys that accesses read are those of the reads among them, in order: putting two lists of
/// accesses behind each other puts the keys behind each other.
pub proof fn law_read_keys(a: Seq<AccessModel>, b: Seq<AccessModel>, k: KeyModel)
    ensures
        graph_model::read_keys(seq![AccessModel::Read(k)]) == seq![k],
        graph_model::read_keys(seq![AccessModel::Write(k)]) == Seq::<KeyModel>::empty(),
        graph_model::read_keys(a + b) == graph_model::read_keys(a) + graph_model::read_keys(b),
    decreases b.len(),
{
    reveal_with_fuel(graph_model::read_keys, 2);
    assert(seq![AccessModel::Read(k)].drop_last() =~= Seq::empty());
    assert(seq![AccessModel::Write(k)].drop_last() =~= Seq::empty());
    assert(graph_model::read_keys(seq![AccessModel::Read(k)]) =~= seq![k]);
    if b.len() == 0 {
        assert(a + b =~= a);
        assert(graph_model::read_keys(a) + graph_model::read_keys(b) =~= graph_model::read_keys(a));
    } else {
        law_read_keys(a, b.drop_last(), k);
        assert((a + b).drop_last() =~= a + b.drop_last());
        assert((a + b).last() == b.last());
        assert(graph_model::read_keys(a + b) =~= graph_model::read_keys(a)
            + graph_model::read_keys(b));
    }
}

/// A number that the engine gives back for a key that a run read is among the dependencies of every
/// output of the node, with all those of its inputs and no other.
pub proof fn law_run_sets_dependencies(
    g: GraphView,
    node: NodeId,
    r: Resolved,
    x: Executed,
    ids: Seq<DirtyKey>,
    i: int,
)
    requires
        node.0 < g.nodes.len(),
        g.finished(node, r, x, ids).1 is Ok,
        0 <= i < g.nodes[node.0 as int].output_ids.len(),
    ensures
        ({
            let outs = g.nodes[node.0 as int].output_ids;
            let asked = g.finished(node, r, x, ids).0.asked;
            &&& asked[asked.len() - outs.len() + i] matches Asked::SetDependencies { id, on }
            &&& id == outs[i]
            &&& on == g.finished(node, r, x, ids).0.nodes[node.0 as int].last_read_ids
        }),
{
    let outs = g.nodes[node.0 as int].output_ids;
    let on = crate::dirty::canonical(r.read_ids + ids);
    lemma_dependency_asks(outs, on, outs.len(), i);
}

proof fn lemma_dependency_asks(outs: Seq<DirtyKey>, on: Seq<DirtyKey>, k: nat, i: int)
    requires
        0 <= i < k,
    ensures
        graph_model::dependency_asks(outs, on, k).len() == k,
        graph_model::dependency_asks(outs, on, k)[i] == (Asked::SetDependencies {
            id: outs[i],
            on,
        }),
    decreases k,
{
    reveal_with_fuel(graph_model::dependency_asks, 2);
    if k > 1 {
        lemma_dependency_asks(
            outs,
            on,
            (k - 1) as nat,
            if i < k - 1 {
                i
            } else {
                0
            },
        );
    }
}

// ---------------------------------------------------------------------------------------------
// Reports.
// ---------------------------------------------------------------------------------------------

/// What is told about a node that runs: the key that has it run where causes or paths are asked for,
/// and the path to it where paths are asked for, which is the key alone where there is no other.
pub proof fn law_detail(
    node: NodeId,
    output: Seq<char>,
    id: DirtyKey,
    mask: ReportDetailMask,
    path: Option<Seq<KeyModel>>,
)
    ensures
        ({
            let key = KeyModel::NodeOutput { node, output };
            let d = graph_model::detail(DrainedModel { id, key }, mask, path);
            &&& d.node == node
            &&& !(mask is NONE) ==> d.because_of == Some(key)
            &&& mask is NONE ==> d.because_of is None
            &&& (mask is WHY_PATH || mask is FULL) && path is Some ==> d.why_path == path
            &&& (mask is WHY_PATH || mask is FULL) && path is None ==> d.why_path == Some(
                seq![key],
            )
            &&& mask is NONE || mask is BECAUSE_OF ==> d.why_path is None
        }),
{
}

/// A list of names is refused for the first that comes again later, and only where one does.
pub proof fn law_duplicate_names(names: Seq<Seq<char>>)
    ensures
        graph_model::first_duplicate(names) is None <==> names.no_duplicates(),
        graph_model::first_duplicate(names) matches Some(i) ==> 0 <= i < names.len() && (exists|
            j: int,
        |
            i < j < names.len() && names[i] == #[trigger] names[j]) && forall|k: int, j: int|
            0 <= k < i && k < j < names.len() ==> (#[trigger] names[k]) != (#[trigger] names[j]),
{
    if exists|i: int| 0 <= i < names.len() && graph_model::comes_again(names, i) {
        let i = choose|i: int| 0 <= i < names.len() && graph_model::comes_again(names, i);
        let f = lemma_least_again(names, i);
        graph_model::lemma_first_duplicate(names, f);
        let j = choose|j: int| f < j < names.len() && names[f] == #[trigger] names[j];
        assert(!names.no_duplicates());
        assert forall|k: int, j: int| 0 <= k < f && k < j < names.len() implies (
        #[trigger] names[k]) != (#[trigger] names[j]) by {
            assert(!graph_model::comes_again(names, k));
        }
    } else {
        assert forall|i: int, j: int|
            0 <= i < names.len() && 0 <= j < names.len() && i != j implies names[i]
            != names[j] by {
            let k = if i < j {
                i
            } else {
                j
            };
            assert(!graph_model::comes_again(names, k));
        }
    }
}

proof fn lemma_least_again(names: Seq<Seq<char>>, i: int) -> (f: int)
    requires
        0 <= i < names.len(),
        graph_model::comes_again(names, i),
    ensures
        0 <= f < names.len(),
        graph_model::comes_again(names, f),
        forall|k: int| 0 <= k < f ==> !graph_model::comes_again(names, k),
    decreases i,
{
    if forall|k: int| 0 <= k < i ==> !graph_model::comes_again(names, k) {
        i
    } else {
        let k = choose|k: int| 0 <= k < i && graph_model::comes_again(names, k);
        lemma_least_again(names, k)
    }
}

/// Invalidating a key or an input changes no node: the engine is asked for the number of the key,
/// where it has not given it for an input before, and to mark that number dirty.
pub proof fn law_invalidate(g: GraphView, key: KeyModel, name: Seq<char>, post: GraphView)
    ensures
        g.invalidated(key, post) ==> post.nodes == g.nodes && post.asked.len() == g.asked.len() + 2
            && (post.asked[g.asked.len() as int] matches Asked::Intern { key: k, id } && k == key
            && post.asked[g.asked.len() as int + 1] == (Asked::MarkDirty { id })),
        g.input_invalidated(name, post) && g.input_ids.contains_key(name) ==> post.nodes == g.nodes
            && post.asked == g.asked.push(Asked::MarkDirty { id: g.input_ids[name] })
            && post.input_ids == g.input_ids,
        g.input_invalidated(name, post) && !g.input_ids.contains_key(name) ==> post.nodes == g.nodes
            && post.asked.len() == g.asked.len() + 2 && (post.asked[g.asked.len() as int]
            matches Asked::Intern { key: k, id } && k == KeyModel::Input(name) && post.asked[
        g.asked.len() as int + 1] == (Asked::MarkDirty { id }) && post.input_ids == g.input_ids.insert(
            name,
            id,
        )),
{
    if g.input_invalidated(name, post) && g.input_ids.contains_key(name) {
        assert(post.asked =~= g.asked.push(Asked::MarkDirty { id: g.input_ids[name] }));
    }
}

/// The outputs of a run that ended well are its results under the names of the outputs, in order;
/// an output that is no longer among them keeps its value.
pub proof fn law_results_stored(
    outputs: Map<Seq<char>, ValueModel>,
    names: Seq<Seq<char>>,
    results: Seq<ValueModel>,
    k: nat,
    i: int,
    other: Seq<char>,
)
    requires
        k <= names.len(),
        names.no_duplicates(),
    ensures
        ({
            let after = graph_model::store_outputs(outputs, names, results, k);
            &&& 0 <= i < k ==> after.contains_key(names[i]) && after[names[i]] == results[i]
            &&& !names.contains(other) ==> (after.contains_key(other) <==> outputs.contains_key(
                other,
            )) && (outputs.contains_key(other) ==> after[other] == outputs[other])
        }),
    decreases k,
{
    if k > 0 {
        law_results_stored(outputs, names, results, (k - 1) as nat, i, other);
        assert(names.contains(names[k - 1]));
        if 0 <= i < k - 1 {
            assert(names[i] != names[k - 1]);
        }
    }
}

// ---------------------------------------------------------------------------------------------
// What a run leaves.
// ---------------------------------------------------------------------------------------------

/// The number that an input was bound with, where it is bound.
pub open spec fn bound_number(b: Option<BindingModel>) -> Option<DirtyKey> {
    match b {
        Some(BindingModel::External { read_id, .. }) => Some(read_id),
        Some(BindingModel::FromNode { read_id, .. }) => Some(read_id),
        None => None,
    }
}

proof fn lemma_read_ids(g: GraphView, node: NodeId, k: nat, j: int)
    requires
        node.0 < g.nodes.len(),
        g.resolved(node, k) is Ok,
        0 <= j < k,
    ensures
        (g.resolved(node, k)->Ok_0).read_ids.len() == k,
        bound_number(g.nodes[node.0 as int].inputs[j]) == Some(
            (g.resolved(node, k)->Ok_0).read_ids[j],
        ),
    decreases k,
{
    reveal_with_fuel(GraphView::resolved, 2);
    if k > 1 {
        lemma_read_ids(
            g,
            node,
            (k - 1) as nat,
            if j < k - 1 {
                j
            } else {
                0
            },
        );
    }
}

/// The numbers of what a node reads as its inputs are those that the inputs were bound with, in the
/// order of the inputs.
pub proof fn law_inputs_have_numbers(g: GraphView, node: NodeId, r: Resolved, j: int)
    requires
        node.0 < g.nodes.len(),
        g.inputs_of(node) == Ok::<Resolved, GraphErrorModel>(r),
        0 <= j < g.nodes[node.0 as int].input_names.len(),
    ensures
        r.read_ids.len() == g.nodes[node.0 as int].input_names.len(),
        bound_number(g.nodes[node.0 as int].inputs[j]) == Some(r.read_ids[j]),
{
    lemma_read_ids(g, node, g.nodes[node.0 as int].input_names.len(), j);
}

/// A run that ended well counts once, and keeps the numbers of all that it read: those of its inputs
/// and those of the keys that were read meanwhile, each once and in order, and no other.
pub proof fn law_run_commits(
    g: GraphView,
    node: NodeId,
    r: Resolved,
    x: Executed,
    ids: Seq<DirtyKey>,
    id: DirtyKey,
)
    requires
        node.0 < g.nodes.len(),
        g.finished(node, r, x, ids).1 is Ok,
    ensures
        ({
            let n = g.nodes[node.0 as int];
            let post = g.finished(node, r, x, ids).0.nodes[node.0 as int];
            &&& n.run_count < u64::MAX ==> post.run_count == n.run_count + 1
            &&& n.run_count == u64::MAX ==> post.run_count == u64::MAX
            &&& post.deps_initialized
            &&& post.last_read_ids.contains(id) <==> r.read_ids.contains(id) || ids.contains(id)
            &&& forall|i: int, j: int|
                0 <= i < j < post.last_read_ids.len() ==> (#[trigger] post.last_read_ids[i]).0 < (
                #[trigger] post.last_read_ids[j]).0
            &&& post.kind == n.kind
            &&& post.input_names == n.input_names
            &&& post.inputs == n.inputs
            &&& post.output_names == n.output_names
            &&& post.output_ids == n.output_ids
        }),
{
    let all = r.read_ids + ids;
    crate::dirty::lemma_canonical_exists(all);
    let c = crate::dirty::canonical(all);
    assert(c.to_set().contains(id) == all.to_set().contains(id));
    if r.read_ids.contains(id) {
        let i = choose|i: int| 0 <= i < r.read_ids.len() && r.read_ids[i] == id;
        assert(all[i] == id);
    }
    if ids.contains(id) {
        let i = choose|i: int| 0 <= i < ids.len() && ids[i] == id;
        assert(all[r.read_ids.len() + i] == id);
    }
    if all.contains(id) {
        let i = choose|i: int| 0 <= i < all.len() && all[i] == id;
        if i < r.read_ids.len() {
            assert(r.read_ids[i] == id);
        } else {
            assert(ids[i - r.read_ids.len()] == id);
        }
    }
}

/// A plan holds exactly the nodes of the graph of which an output is among the affected keys.
pub proof fn law_plan_is_affected_nodes(keys: Seq<DrainedModel>, n: nat, node: NodeId)
    ensures
        plan::planned(keys, n).contains(node) <==> node.0 < n && exists|i: int|
            0 <= i < keys.len() && ((#[trigger] keys[i]).key matches KeyModel::NodeOutput {
                node: at,
                ..
            } && at == node),
{
    let c = plan::chosen(keys, n, seq![]);
    plan::lemma_chosen(keys, n, seq![]);
    if plan::planned(keys, n).contains(node) {
        let i = choose|i: int|
            0 <= i < plan::planned(keys, n).len() && plan::planned(keys, n)[i] == node;
        assert(plan::planned(keys, n)[i] == plan::node_of(c[i])->0);
        let d = c[i];
        assert(keys.contains(d));
        let k = choose|k: int| 0 <= k < keys.len() && keys[k] == d;
        assert(keys[k].key is NodeOutput);
    }
    if node.0 < n && exists|i: int|
        0 <= i < keys.len() && ((#[trigger] keys[i]).key matches KeyModel::NodeOutput {
            node: at,
            ..
        } && at == node) {
        let i = choose|i: int|
            0 <= i < keys.len() && ((#[trigger] keys[i]).key matches KeyModel::NodeOutput {
                node: at,
                ..
            } && at == node);
        plan::law_plan_holds_every_affected_node(keys, n, i);
    }
}

} // verus!
