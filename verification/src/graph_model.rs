//! What a graph of nodes is, and what each operation does to it.

use vstd::prelude::*;

use crate::access::{AccessModel, KeyModel, NodeId};
use crate::aggregates::AggModel;
use crate::digits;
use crate::dirty;
use crate::dirty::{Asked, DirtyKey, DrainedModel};
use crate::disasm;
use crate::graph::NativeNodeFn;
use crate::host::SigHash;
use crate::ieee::FloatCall;
use crate::machine;
use crate::machine::Limits;
use crate::plan;
use crate::program;
use crate::program::ProgramView;
use crate::report::{DetailModel, ReportDetailMask};
use crate::strict;
use crate::strict::HostCall;
use crate::trap::TrapInfo;
use crate::value::{FuncId, ValueModel};
use crate::verify::VerifiedView;
use crate::vm;

verus! {

/// What a node input is bound to.
#[verifier::ext_equal]
pub enum BindingModel {
    /// A value from outside.
    External { value: ValueModel, read_id: DirtyKey },
    /// An output of a node.
    FromNode { node: NodeId, output: Seq<char>, read_id: DirtyKey },
}

/// Something that a node was given.
pub struct Given<C> {
    pub it: C,
}

/// What a node was given.
pub open spec fn given<C>(it: C) -> Given<C> {
    Given { it }
}

/// What a node does.
#[verifier::ext_equal]
pub enum KindModel {
    /// It runs a function of a program.
    Tape { program: VerifiedView, entry: FuncId },
    /// It calls back.
    Native { name: Seq<char>, callback: Given<Box<dyn NativeNodeFn>> },
}

/// A call of a node that calls back.
#[verifier::ext_equal]
pub struct NativeCall {
    /// The node.
    pub node: NodeId,
    /// What the node was given to call.
    pub callback: Given<Box<dyn NativeNodeFn>>,
    /// The arguments.
    pub args: Seq<ValueModel>,
    /// What came back.
    pub results: Result<Seq<ValueModel>, GraphErrorModel>,
    /// The accesses that were recorded meanwhile.
    pub accesses: Seq<AccessModel>,
}

/// What runs have left outside the nodes, and what they asked of outside.
#[verifier::ext_equal]
pub struct World {
    /// Aggregates of the runs so far.
    pub heap: Seq<AggModel>,
    /// The calls that the host performed, in order.
    pub calls: Seq<HostCall>,
    /// What the float unit performed, in order.
    pub sums: Seq<FloatCall>,
    /// The calls of nodes that call back, in order.
    pub natives: Seq<NativeCall>,
}

impl World {
    /// Nothing has run.
    pub open spec fn empty() -> Self {
        World { heap: seq![], calls: seq![], sums: seq![], natives: seq![] }
    }
}

/// The contents of a node.
#[verifier::ext_equal]
pub struct NodeModel {
    /// What the node does.
    pub kind: KindModel,
    /// Names of the inputs, in the order of the arguments.
    pub input_names: Seq<Seq<char>>,
    /// What each input is bound to.
    pub inputs: Seq<Option<BindingModel>>,
    /// Names of the outputs, in the order of the results.
    pub output_names: Seq<Seq<char>>,
    /// Numbers of the outputs.
    pub output_ids: Seq<DirtyKey>,
    /// Outputs of the last run.
    pub outputs: Map<Seq<char>, ValueModel>,
    /// Accesses of the last run, where they are collected.
    pub last_access: Option<Seq<AccessModel>>,
    /// Numbers of what the last run read.
    pub last_read_ids: Seq<DirtyKey>,
    /// Whether the outputs depend on what a run read.
    pub deps_initialized: bool,
    /// How often the node ran.
    pub run_count: u64,
}

/// The contents of a graph.
#[verifier::ext_equal]
pub struct GraphView {
    /// The nodes.
    pub nodes: Seq<NodeModel>,
    /// What was asked of the engine, in order.
    pub asked: Seq<Asked>,
    /// Numbers of inputs that were invalidated by name.
    pub input_ids: Map<Seq<char>, DirtyKey>,
    /// Whether every host call has to record an access.
    pub strict_deps: bool,
    /// Whether accesses are collected.
    pub collect_access: bool,
    /// Limits of a run.
    pub limits: Limits,
    /// What the runs so far have left and asked.
    pub world: World,
}

/// Why a node could not run.
#[verifier::ext_equal]
pub enum GraphErrorModel {
    /// A node id was invalid.
    BadNodeId,
    /// An input was not bound.
    MissingInput { node: NodeId, name: Seq<char> },
    /// An output of another node was not there.
    MissingUpstreamOutput { node: NodeId, name: Seq<char> },
    /// A node returned an unexpected number of outputs.
    BadOutputArity { node: NodeId },
    /// A host call recorded no access.
    StrictDepsViolation { node: NodeId, symbol: Seq<char>, sig_hash: SigHash },
    /// Two outputs of a node have the same name.
    DuplicateOutputName { name: Seq<char> },
    /// The program trapped.
    Trap,
}

// ---------------------------------------------------------------------------------------------
// Nodes and wires.
// ---------------------------------------------------------------------------------------------

/// The key of an output of a node.
pub open spec fn output_key(node: NodeId, output: Seq<char>) -> KeyModel {
    KeyModel::NodeOutput { node, output }
}

/// The name of output `i` of a function. One without a name, or named `ret`, is named by its
/// number.
pub open spec fn output_label(p: ProgramView, func: u32, i: nat) -> Seq<char> {
    match disasm::chars_of(
        p.symbol_opt(
            program::output_name_in(p.function_output_names, func, program::clamp32(i)),
        ),
    ) {
        Some(name) => if name == "ret"@ {
            "ret"@ + digits::decimal(i)
        } else {
            name
        },
        None => "ret"@ + digits::decimal(i),
    }
}

/// How many outputs a function has.
pub open spec fn output_count(p: ProgramView, func: FuncId) -> nat {
    if func.0 < p.functions.len() {
        p.functions[func.0 as int].ret_count as nat
    } else {
        0
    }
}

/// The names of the outputs of a function.
pub open spec fn output_labels(p: ProgramView, func: FuncId) -> Seq<Seq<char>> {
    Seq::new(output_count(p, func), |i: int| output_label(p, func.0, i as nat))
}

/// A name comes again later.
pub open spec fn comes_again(names: Seq<Seq<char>>, i: int) -> bool {
    exists|j: int| i < j < names.len() && names[i] == #[trigger] names[j]
}

/// The first name that comes again later.
pub open spec fn first_duplicate(names: Seq<Seq<char>>) -> Option<int> {
    if exists|i: int| 0 <= i < names.len() && comes_again(names, i) {
        Some(
            choose|i: int|
                0 <= i < names.len() && comes_again(names, i) && forall|k: int|
                    0 <= k < i ==> !comes_again(names, k),
        )
    } else {
        None
    }
}

/// What the first name is that comes again later.
pub proof fn lemma_first_duplicate(names: Seq<Seq<char>>, i: int)
    requires
        0 <= i < names.len(),
        comes_again(names, i),
        forall|k: int| 0 <= k < i ==> !comes_again(names, k),
    ensures
        first_duplicate(names) == Some(i),
{
    let f = choose|f: int|
        0 <= f < names.len() && comes_again(names, f) && forall|k: int|
            0 <= k < f ==> !comes_again(names, k);
    assert(f == i) by {
        if f < i {
            assert(!comes_again(names, f));
        } else if i < f {
            assert(!comes_again(names, i));
        }
    }
}

/// A node that has not run and of which no input is bound.
pub open spec fn fresh_node(
    kind: KindModel,
    input_names: Seq<Seq<char>>,
    output_names: Seq<Seq<char>>,
    ids: Seq<DirtyKey>,
) -> NodeModel {
    NodeModel {
        kind,
        input_names,
        inputs: Seq::new(input_names.len(), |i: int| None),
        output_names,
        output_ids: ids,
        outputs: Map::empty(),
        last_access: None,
        last_read_ids: seq![],
        deps_initialized: false,
        run_count: 0,
    }
}

/// What is asked of the engine for the first `k` outputs of a new node: a number for each, and to
/// mark it dirty.
pub open spec fn output_asks(node: NodeId, names: Seq<Seq<char>>, ids: Seq<DirtyKey>, k: nat) -> Seq<
    Asked,
>
    decreases k,
{
    if k == 0 {
        seq![]
    } else {
        output_asks(node, names, ids, (k - 1) as nat).push(
            Asked::Intern { key: output_key(node, names[k - 1]), id: ids[k - 1] },
        ).push(Asked::MarkDirty { id: ids[k - 1] })
    }
}

/// What is asked of the engine where a node is wired to the key `src`: the first `k` of its outputs
/// depend on it, and are dirty.
pub open spec fn wire_asks(output_ids: Seq<DirtyKey>, src: DirtyKey, k: nat) -> Seq<Asked>
    decreases k,
{
    if k == 0 {
        seq![]
    } else {
        wire_asks(output_ids, src, (k - 1) as nat).push(
            Asked::AddDependency { id: output_ids[k - 1], on: src },
        ).push(Asked::MarkDirty { id: output_ids[k - 1] })
    }
}

/// What is asked of the engine where the first `k` outputs of a node come to depend on `on`.
pub open spec fn dependency_asks(output_ids: Seq<DirtyKey>, on: Seq<DirtyKey>, k: nat) -> Seq<Asked>
    decreases k,
{
    if k == 0 {
        seq![]
    } else {
        dependency_asks(output_ids, on, (k - 1) as nat).push(
            Asked::SetDependencies { id: output_ids[k - 1], on },
        )
    }
}

/// What is asked of the engine for the numbers of the first `k` keys.
pub open spec fn intern_asks(keys: Seq<KeyModel>, ids: Seq<DirtyKey>, k: nat) -> Seq<Asked>
    decreases k,
{
    if k == 0 {
        seq![]
    } else {
        intern_asks(keys, ids, (k - 1) as nat).push(
            Asked::Intern { key: keys[k - 1], id: ids[k - 1] },
        )
    }
}

/// A node, with every input of the given name bound.
pub open spec fn bind(n: NodeModel, name: Seq<char>, b: BindingModel) -> NodeModel {
    NodeModel {
        inputs: Seq::new(
            n.inputs.len(),
            |i: int|
                if n.input_names[i] == name {
                    Some(b)
                } else {
                    n.inputs[i]
                },
        ),
        ..n
    }
}

impl GraphView {
    /// Whether there is a node.
    pub open spec fn has(self, node: NodeId) -> bool {
        node.0 < self.nodes.len()
    }

    /// A node.
    pub open spec fn node(self, node: NodeId) -> NodeModel {
        self.nodes[node.0 as int]
    }

    /// The graph with another node and more asked of the engine.
    pub open spec fn with_node(
        self,
        kind: KindModel,
        input_names: Seq<Seq<char>>,
        output_names: Seq<Seq<char>>,
        ids: Seq<DirtyKey>,
    ) -> Self {
        GraphView {
            nodes: self.nodes.push(fresh_node(kind, input_names, output_names, ids)),
            asked: self.asked + output_asks(
                NodeId(self.nodes.len() as u64),
                output_names,
                ids,
                output_names.len(),
            ),
            ..self
        }
    }

    /// The graph after more was asked of the engine.
    pub open spec fn ask(self, more: Seq<Asked>) -> Self {
        GraphView { asked: self.asked + more, ..self }
    }

    /// The graph with a node put in place of another.
    pub open spec fn put(self, node: NodeId, n: NodeModel) -> Self {
        GraphView { nodes: self.nodes.update(node.0 as int, n), ..self }
    }

    /// A value was bound to the inputs of a node with the given name, where there are any.
    pub open spec fn input_set(self, node: NodeId, name: Seq<char>, value: ValueModel, post: Self) -> bool {
        if self.has(node) && self.node(node).input_names.contains(name) {
            exists|id: DirtyKey|
                post == self.put(
                    node,
                    bind(self.node(node), name, BindingModel::External { value, read_id: id }),
                ).ask(seq![#[trigger] asked_input(name, id)])
        } else {
            post == self
        }
    }

    /// An output of a node was connected to the inputs of another with the given name.
    pub open spec fn connected(
        self,
        from: NodeId,
        output: Seq<char>,
        to: NodeId,
        input: Seq<char>,
        post: Self,
    ) -> bool {
        if self.has(to) {
            exists|id: DirtyKey|
                post == self.put(
                    to,
                    bind(
                        self.node(to),
                        input,
                        BindingModel::FromNode { node: from, output, read_id: id },
                    ),
                ).ask(
                    seq![#[trigger] asked_output(from, output, id)] + wire_asks(
                        self.node(to).output_ids,
                        id,
                        self.node(to).output_ids.len(),
                    ),
                )
        } else {
            post == self
        }
    }

    /// A key was marked dirty.
    pub open spec fn invalidated(self, key: KeyModel, post: Self) -> bool {
        exists|id: DirtyKey|
            post == self.ask(seq![#[trigger] asked_key(key, id), Asked::MarkDirty { id }])
    }

    /// An input was marked dirty. Its number is asked for once.
    pub open spec fn input_invalidated(self, name: Seq<char>, post: Self) -> bool {
        if self.input_ids.contains_key(name) {
            post == self.ask(seq![Asked::MarkDirty { id: self.input_ids[name] }])
        } else {
            exists|id: DirtyKey|
                post == (GraphView { input_ids: self.input_ids.insert(name, id), ..self }).ask(
                    seq![#[trigger] asked_input(name, id), Asked::MarkDirty { id }],
                )
        }
    }
}

/// The number of a key was asked for.
pub open spec fn asked_key(key: KeyModel, id: DirtyKey) -> Asked {
    Asked::Intern { key, id }
}

/// The number of an input was asked for.
pub open spec fn asked_input(name: Seq<char>, id: DirtyKey) -> Asked {
    Asked::Intern { key: KeyModel::Input(name), id }
}

/// The number of an output was asked for.
pub open spec fn asked_output(node: NodeId, output: Seq<char>, id: DirtyKey) -> Asked {
    Asked::Intern { key: output_key(node, output), id }
}

// ---------------------------------------------------------------------------------------------
// What holds of every graph.
// ---------------------------------------------------------------------------------------------

/// A binding has the number of what it reads.
pub open spec fn binding_ok(asked: Seq<Asked>, name: Seq<char>, b: Option<BindingModel>) -> bool {
    match b {
        Some(BindingModel::External { read_id, .. }) => dirty::interned(
            asked,
            KeyModel::Input(name),
            read_id,
        ),
        Some(BindingModel::FromNode { node, output, read_id }) => dirty::interned(
            asked,
            output_key(node, output),
            read_id,
        ),
        None => true,
    }
}

/// A node with the given index is as it should be: it has a binding for each input, and a number
/// for each output, and once it ran it has every output, and no other. What it read stands in
/// increasing order.
pub open spec fn node_ok(asked: Seq<Asked>, i: int, n: NodeModel) -> bool {
    &&& n.inputs.len() == n.input_names.len()
    &&& n.output_ids.len() == n.output_names.len()
    &&& dirty::increasing(n.last_read_ids)
    &&& forall|k: int|
        0 <= k < n.inputs.len() ==> binding_ok(asked, n.input_names[k], #[trigger] n.inputs[k])
    &&& forall|k: int|
        0 <= k < n.output_ids.len() ==> dirty::interned(
            asked,
            output_key(NodeId(i as u64), n.output_names[k]),
            #[trigger] n.output_ids[k],
        )
    &&& n.outputs == Map::<Seq<char>, ValueModel>::empty() || (forall|k: int|
        0 <= k < n.output_names.len() ==> n.outputs.contains_key(#[trigger] n.output_names[k]))
    &&& forall|name: Seq<char>| #[trigger]
        n.outputs.contains_key(name) ==> n.output_names.contains(name)
}

/// Each output of a node depends on everything that its last run read.
pub open spec fn reads_kept(asked: Seq<Asked>, n: NodeModel) -> bool {
    n.deps_initialized ==> forall|k: int, id: DirtyKey|
        0 <= k < n.output_ids.len() && n.last_read_ids.contains(id)
            ==> #[trigger] dirty::dependencies(asked, n.output_ids[k]).contains(id)
}

/// The number of the output that an input is connected to.
pub open spec fn source(b: Option<BindingModel>) -> Option<DirtyKey> {
    match b {
        Some(BindingModel::FromNode { read_id, .. }) => Some(read_id),
        _ => None,
    }
}

/// Each output of a node depends on every output that one of its inputs is connected to.
pub open spec fn wired(asked: Seq<Asked>, n: NodeModel) -> bool {
    forall|k: int, j: int|
        0 <= k < n.output_ids.len() && 0 <= j < n.inputs.len() ==> (source(#[trigger] n.inputs[j])
            matches Some(id) ==> dirty::dependencies(asked, #[trigger] n.output_ids[k]).contains(id))
}

impl GraphView {
    /// Every node is as it should be, and where the engine gave no two keys the same number, each
    /// output of a node depends on everything that its last run read and on what its inputs are
    /// connected to.
    pub open spec fn consistent(self) -> bool {
        &&& self.nodes.len() <= u64::MAX
        &&& forall|i: int|
            0 <= i < self.nodes.len() ==> node_ok(self.asked, i, #[trigger] self.nodes[i])
        &&& forall|name: Seq<char>| #[trigger]
            self.input_ids.contains_key(name) ==> dirty::interned(
                self.asked,
                KeyModel::Input(name),
                self.input_ids[name],
            )
        &&& dirty::distinct_numbers(self.asked) ==> forall|i: int|
            0 <= i < self.nodes.len() ==> reads_kept(self.asked, #[trigger] self.nodes[i]) && wired(
                self.asked,
                self.nodes[i],
            )
    }
}

// ---------------------------------------------------------------------------------------------
// Running a node.
// ---------------------------------------------------------------------------------------------

/// The inputs of a node, resolved.
#[verifier::ext_equal]
pub struct Resolved {
    /// The arguments.
    pub args: Seq<ValueModel>,
    /// Numbers of what was read for them.
    pub read_ids: Seq<DirtyKey>,
    /// What was read for them.
    pub reads: Seq<AccessModel>,
}

/// What an input reads.
#[verifier::ext_equal]
pub struct InputRead {
    /// The value.
    pub value: ValueModel,
    /// Number of the key.
    pub read_id: DirtyKey,
    /// The key.
    pub key: KeyModel,
}

impl GraphView {
    /// What input `k` of a node reads, or why it cannot be read.
    pub open spec fn read_input(self, node: NodeId, k: int) -> Result<InputRead, GraphErrorModel> {
        let name = self.node(node).input_names[k];
        match self.node(node).inputs[k] {
            None => Err(GraphErrorModel::MissingInput { node, name }),
            Some(BindingModel::External { value, read_id }) => Ok(
                InputRead { value, read_id, key: KeyModel::Input(name) },
            ),
            Some(BindingModel::FromNode { node: up, output, read_id }) => if !self.has(up) {
                Err(GraphErrorModel::BadNodeId)
            } else if !self.node(up).outputs.contains_key(output) {
                Err(GraphErrorModel::MissingUpstreamOutput { node: up, name: output })
            } else {
                Ok(
                    InputRead {
                        value: self.node(up).outputs[output],
                        read_id,
                        key: output_key(up, output),
                    },
                )
            },
        }
    }

    /// The first `k` inputs of a node, resolved: the first that cannot be read is the failure.
    pub open spec fn resolved(self, node: NodeId, k: nat) -> Result<Resolved, GraphErrorModel>
        decreases k,
    {
        if k == 0 {
            Ok(Resolved { args: seq![], read_ids: seq![], reads: seq![] })
        } else {
            match self.resolved(node, (k - 1) as nat) {
                Err(e) => Err(e),
                Ok(r) => match self.read_input(node, k - 1) {
                    Err(e) => Err(e),
                    Ok(x) => Ok(
                        Resolved {
                            args: r.args.push(x.value),
                            read_ids: r.read_ids.push(x.read_id),
                            reads: r.reads.push(AccessModel::Read(x.key)),
                        },
                    ),
                },
            }
        }
    }

    /// The inputs of a node, resolved.
    pub open spec fn inputs_of(self, node: NodeId) -> Result<Resolved, GraphErrorModel> {
        if self.has(node) {
            self.resolved(node, self.node(node).input_names.len())
        } else {
            Err(GraphErrorModel::BadNodeId)
        }
    }
}

/// What came back from what a node does.
#[verifier::ext_equal]
pub struct Executed {
    /// Its results, or why it failed.
    pub results: Result<Seq<ValueModel>, GraphErrorModel>,
    /// The accesses that were recorded meanwhile.
    pub accesses: Seq<AccessModel>,
    /// The first host call that recorded none.
    pub silent: Option<(Seq<char>, SigHash)>,
    /// What there is outside the nodes afterwards.
    pub world: World,
}

/// The keys that accesses read, in order.
pub open spec fn read_keys(accesses: Seq<AccessModel>) -> Seq<KeyModel>
    decreases accesses.len(),
{
    if accesses.len() == 0 {
        seq![]
    } else {
        match accesses.last() {
            AccessModel::Read(k) => read_keys(accesses.drop_last()).push(k),
            AccessModel::Write(_) => read_keys(accesses.drop_last()),
        }
    }
}

/// Outputs, with the first `k` results stored under their names.
pub open spec fn store_outputs(
    outputs: Map<Seq<char>, ValueModel>,
    names: Seq<Seq<char>>,
    results: Seq<ValueModel>,
    k: nat,
) -> Map<Seq<char>, ValueModel>
    decreases k,
{
    if k == 0 {
        outputs
    } else {
        store_outputs(outputs, names, results, (k - 1) as nat).insert(names[k - 1], results[k - 1])
    }
}

/// The writes of the outputs of a node.
pub open spec fn output_writes(node: NodeId, names: Seq<Seq<char>>) -> Seq<AccessModel> {
    names.map_values(|name: Seq<char>| AccessModel::Write(output_key(node, name)))
}

/// The node after a run that gave the given results, read the keys with the numbers `read_ids` and
/// made the given accesses.
pub open spec fn committed(
    n: NodeModel,
    results: Seq<ValueModel>,
    read_ids: Seq<DirtyKey>,
    log: Option<Seq<AccessModel>>,
) -> NodeModel {
    NodeModel {
        outputs: store_outputs(n.outputs, n.output_names, results, results.len()),
        last_access: log,
        last_read_ids: dirty::canonical(read_ids),
        deps_initialized: true,
        run_count: counted(n.run_count),
        ..n
    }
}

/// Two nodes do the same, and are wired in the same way.
pub open spec fn same_wiring(a: NodeModel, b: NodeModel) -> bool {
    &&& a.kind == b.kind
    &&& a.input_names == b.input_names
    &&& a.inputs == b.inputs
    &&& a.output_names == b.output_names
    &&& a.output_ids == b.output_ids
}

/// The count of runs after one more.
pub open spec fn counted(n: u64) -> u64 {
    if n < u64::MAX {
        (n + 1) as u64
    } else {
        n
    }
}

/// What a run of a function is to a graph.
pub open spec fn tape_results(res: Result<Seq<ValueModel>, TrapInfo>) -> Result<
    Seq<ValueModel>,
    GraphErrorModel,
> {
    match res {
        Ok(values) => Ok(values),
        Err(_) => Err(GraphErrorModel::Trap),
    }
}

impl GraphView {
    /// What becomes of a graph when node `node`, whose inputs are `r`, has given `x`, and the engine
    /// numbers the keys that were read meanwhile with `ids`; and the result of the run.
    pub open spec fn finished(
        self,
        node: NodeId,
        r: Resolved,
        x: Executed,
        ids: Seq<DirtyKey>,
    ) -> (Self, Result<(), GraphErrorModel>) {
        let n = self.node(node);
        let g = GraphView { world: x.world, ..self };
        match x.results {
            Err(e) => (g, Err(e)),
            Ok(results) => if self.strict_deps && n.kind is Tape && x.silent is Some {
                (
                    g,
                    Err(
                        GraphErrorModel::StrictDepsViolation {
                            node,
                            symbol: (x.silent->0).0,
                            sig_hash: (x.silent->0).1,
                        },
                    ),
                )
            } else {
                let keys = read_keys(x.accesses);
                let g = g.ask(intern_asks(keys, ids, keys.len()));
                if results.len() != n.output_names.len() {
                    (g, Err(GraphErrorModel::BadOutputArity { node }))
                } else {
                    let read_ids = r.read_ids + ids;
                    let log = if self.collect_access {
                        Some(r.reads + x.accesses + output_writes(node, n.output_names))
                    } else {
                        None
                    };
                    let g = g.ask(
                        dependency_asks(
                            n.output_ids,
                            dirty::canonical(read_ids),
                            n.output_ids.len(),
                        ),
                    );
                    (g.put(node, committed(n, results, read_ids, log)), Ok(()))
                }
            },
        }
    }

    /// What a node gives back. Where it runs a function, that is what the machine comes to with what
    /// the host replied and the float unit gave in the calls that were made meanwhile; the accesses
    /// are those that the host recorded in these calls, and the silent call is the first of them
    /// without any. Where it calls back, that is what came back from one call with the arguments.
    pub open spec fn executes(self, node: NodeId, args: Seq<ValueModel>, x: Executed) -> bool {
        match self.node(node).kind {
            KindModel::Tape { program, entry } => {
                let calls = vm::since(self.world.calls, x.world.calls);
                let sums = vm::since(self.world.sums, x.world.sums);
                &&& vm::grew(self.world.calls, x.world.calls)
                &&& vm::grew(self.world.sums, x.world.sums)
                &&& x.world.natives == self.world.natives
                &&& strict::all_handed(calls, true)
                &&& x.accesses == strict::told(calls)
                &&& x.silent == strict::noted_after(None, calls)
                &&& exists|res: Result<Seq<ValueModel>, TrapInfo>| #[trigger]
                    vm::ends_in(
                        program,
                        self.limits,
                        machine::start(program, self.limits, self.world.heap, entry, args),
                        res,
                        x.world.heap,
                        calls,
                        sums,
                    ) && x.results == tape_results(res)
            },
            KindModel::Native { callback, .. } => {
                &&& x.silent is None
                &&& x.world == (World {
                    natives: self.world.natives.push(
                        NativeCall {
                            node,
                            callback,
                            args,
                            results: x.results,
                            accesses: x.accesses,
                        },
                    ),
                    ..self.world
                })
            },
        }
    }

    /// A node ran, or why it did not.
    pub open spec fn node_ran(self, node: NodeId, post: Self, res: Result<(), GraphErrorModel>) -> bool {
        match self.inputs_of(node) {
            Err(e) => post == self && res == Err::<(), GraphErrorModel>(e),
            Ok(r) => exists|x: Executed, ids: Seq<DirtyKey>|
                self.executes(node, r.args, x) && ids.len() == read_keys(x.accesses).len()
                    && #[trigger] self.finished(node, r, x, ids) == (post, res),
        }
    }

    /// The nodes of a plan ran, one after the other.
    pub open spec fn all_ran(self, nodes: Seq<NodeId>, post: Self) -> bool {
        exists|states: Seq<Self>| #[trigger]
            ran_via(states, nodes) && states[0] == self && states.last() == post
    }

    /// A plan was run: all its nodes, or those before the first that failed.
    pub open spec fn plan_ran(
        self,
        nodes: Seq<NodeId>,
        post: Self,
        res: Result<(), GraphErrorModel>,
    ) -> bool {
        match res {
            Ok(_) => self.all_ran(nodes, post),
            Err(e) => exists|k: int, mid: Self|
                0 <= k < nodes.len() && #[trigger] self.all_ran(nodes.take(k), mid) && mid.node_ran(
                    nodes[k],
                    post,
                    Err(e),
                ),
        }
    }
}

/// Nodes ran one after the other, and the graph went through the given states.
#[verifier::opaque]
pub open spec fn ran_via(states: Seq<GraphView>, nodes: Seq<NodeId>) -> bool {
    &&& states.len() == nodes.len() + 1
    &&& forall|i: int|
        0 <= i < nodes.len() ==> (#[trigger] states[i]).node_ran(
            nodes[i],
            states[i + 1],
            Ok::<(), GraphErrorModel>(()),
        )
}

// ---------------------------------------------------------------------------------------------
// Planning.
// ---------------------------------------------------------------------------------------------

/// What was asked to find the nodes within the dependencies of the first `k` outputs.
pub open spec fn drain_asks(
    output_ids: Seq<DirtyKey>,
    drains: Seq<Seq<DrainedModel>>,
    k: nat,
) -> Seq<Asked>
    decreases k,
{
    if k == 0 {
        seq![]
    } else {
        drain_asks(output_ids, drains, (k - 1) as nat).push(
            Asked::Drain { within: Some(output_ids[k - 1]), traced: false, keys: drains[k - 1] },
        )
    }
}

/// The keys of the first `k` drains, one behind the other.
pub open spec fn all_drained(drains: Seq<Seq<DrainedModel>>, k: nat) -> Seq<DrainedModel>
    decreases k,
{
    if k == 0 {
        seq![]
    } else {
        all_drained(drains, (k - 1) as nat) + drains[k - 1]
    }
}

/// What is told about a node that runs for the key `d`, where `path` explains it.
pub open spec fn detail(
    d: DrainedModel,
    mask: ReportDetailMask,
    path: Option<Seq<KeyModel>>,
) -> DetailModel {
    DetailModel {
        node: plan::node_of(d)->0,
        because_of: if mask.because() || mask.why() {
            Some(d.key)
        } else {
            None
        },
        why_path: if mask.why() {
            match path {
                Some(p) => Some(p),
                None => Some(seq![d.key]),
            }
        } else {
            None
        },
    }
}

/// What is told about nodes.
pub open spec fn details(
    ds: Seq<DrainedModel>,
    mask: ReportDetailMask,
    paths: Seq<Option<Seq<KeyModel>>>,
) -> Seq<DetailModel> {
    Seq::new(ds.len(), |i: int| detail(ds[i], mask, paths[i]))
}

/// What is asked to explain the first `k` keys.
pub open spec fn explain_asks(ds: Seq<DrainedModel>, paths: Seq<Option<Seq<KeyModel>>>, k: nat) -> Seq<
    Asked,
>
    decreases k,
{
    if k == 0 {
        seq![]
    } else {
        explain_asks(ds, paths, (k - 1) as nat).push(
            Asked::Explain { id: ds[k - 1].id, path: paths[k - 1] },
        )
    }
}

/// The keys of drain `k` that have a node run that the drains before it do not.
pub open spec fn newly(drains: Seq<Seq<DrainedModel>>, n: nat, k: int) -> Seq<DrainedModel> {
    plan::chosen(drains[k], n, plan::planned(all_drained(drains, k as nat), n))
}

/// What was asked for a report on the nodes within the dependencies of the first `k` outputs.
pub open spec fn report_asks(
    output_ids: Seq<DirtyKey>,
    drains: Seq<Seq<DrainedModel>>,
    paths: Seq<Seq<Option<Seq<KeyModel>>>>,
    mask: ReportDetailMask,
    n: nat,
    k: nat,
) -> Seq<Asked>
    decreases k,
{
    if k == 0 {
        seq![]
    } else {
        report_asks(output_ids, drains, paths, mask, n, (k - 1) as nat).push(
            Asked::Drain {
                within: Some(output_ids[k - 1]),
                traced: mask.why(),
                keys: drains[k - 1],
            },
        ) + path_asks(newly(drains, n, k - 1), paths[k - 1], mask)
    }
}

/// What is asked to explain keys, where paths are asked for.
pub open spec fn path_asks(
    ds: Seq<DrainedModel>,
    paths: Seq<Option<Seq<KeyModel>>>,
    mask: ReportDetailMask,
) -> Seq<Asked> {
    if mask.why() {
        explain_asks(ds, paths, ds.len())
    } else {
        seq![]
    }
}

/// What is told about the nodes within the dependencies of the first `k` outputs.
pub open spec fn report_details(
    drains: Seq<Seq<DrainedModel>>,
    paths: Seq<Seq<Option<Seq<KeyModel>>>>,
    mask: ReportDetailMask,
    n: nat,
    k: nat,
) -> Seq<DetailModel>
    decreases k,
{
    if k == 0 {
        seq![]
    } else {
        report_details(drains, paths, mask, n, (k - 1) as nat) + details(
            newly(drains, n, k - 1),
            mask,
            paths[k - 1],
        )
    }
}

/// The nodes that details tell about.
pub open spec fn detail_nodes(ds: Seq<DetailModel>) -> Seq<NodeId> {
    ds.map_values(|d: DetailModel| d.node)
}

impl GraphView {
    /// The affected nodes were planned.
    pub open spec fn planned_all(self, nodes: Seq<NodeId>, post: Self) -> bool {
        exists|keys: Seq<DrainedModel>|
            nodes == #[trigger] plan::planned(keys, self.nodes.len()) && post == self.ask(
                seq![Asked::Drain { within: None, traced: false, keys }],
            )
    }

    /// The affected nodes were planned, with details about each.
    pub open spec fn reported_all(self, mask: ReportDetailMask, ds: Seq<DetailModel>, post: Self) -> bool {
        exists|keys: Seq<DrainedModel>, paths: Seq<Option<Seq<KeyModel>>>| #[trigger]
            self.report_of(mask, ds, post, keys, paths)
    }

    /// The affected nodes were planned, with details about each, from the given keys and paths.
    pub open spec fn report_of(
        self,
        mask: ReportDetailMask,
        ds: Seq<DetailModel>,
        post: Self,
        keys: Seq<DrainedModel>,
        paths: Seq<Option<Seq<KeyModel>>>,
    ) -> bool {
        let c = plan::chosen(keys, self.nodes.len(), seq![]);
        &&& paths.len() == c.len()
        &&& ds == details(c, mask, paths)
        &&& post == self.ask(drain_ask(None, mask.why(), keys) + path_asks(c, paths, mask))
    }

    /// The affected nodes within the dependencies of a node were planned.
    pub open spec fn planned_within(self, node: NodeId, nodes: Seq<NodeId>, post: Self) -> bool {
        let outs = self.node(node).output_ids;
        exists|drains: Seq<Seq<DrainedModel>>|
            drains.len() == outs.len() && nodes == plan::planned(
                #[trigger] all_drained(drains, outs.len()),
                self.nodes.len(),
            ) && post == self.ask(drain_asks(outs, drains, outs.len()))
    }

    /// The affected nodes within the dependencies of a node were planned, with details about each.
    pub open spec fn reported_within(
        self,
        node: NodeId,
        mask: ReportDetailMask,
        ds: Seq<DetailModel>,
        post: Self,
    ) -> bool {
        let outs = self.node(node).output_ids;
        let n = self.nodes.len();
        exists|drains: Seq<Seq<DrainedModel>>, paths: Seq<Seq<Option<Seq<KeyModel>>>>|
            drains.len() == outs.len() && paths.len() == outs.len() && ds
                == #[trigger] report_details(drains, paths, mask, n, outs.len()) && post == self.ask(
                report_asks(outs, drains, paths, mask, n, outs.len()),
            )
    }
}

/// The affected keys were asked for.
pub open spec fn drain_ask(within: Option<DirtyKey>, traced: bool, keys: Seq<DrainedModel>) -> Seq<
    Asked,
> {
    seq![Asked::Drain { within, traced, keys }]
}

} // verus!
