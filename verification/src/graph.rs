//! A graph of nodes that are run again only where something they read has changed.

use std::sync::Arc;

use vstd::prelude::*;
use vstd::string::*;

use crate::access;
use crate::access::{Access, AccessLog, AccessModel, KeyModel, NodeId, ResourceKey};
use crate::digits;
use crate::digits::push_decimal;
use crate::dirty;
use crate::dirty::{canonical_keys, Asked, DirtyEngine, DirtyKey, Drained, DrainedModel, Tracker};
use crate::graph_model;
use crate::graph_model::{
    BindingModel, Executed, Given, GraphErrorModel, GraphView, KindModel, NativeCall, NodeModel, Resolved,
    World,
};
use crate::host::{Host, NoAccess, ResourceKeyRef, SigHash};
use crate::history::chain;
use crate::ieee;
use crate::ieee::FloatUnit;
use crate::incremental;
use crate::machine;
use crate::machine::Limits;
use crate::names::NameMap;
use crate::plan;
use crate::plan::Scratch;
use crate::program;
use crate::program::{clamp_u32, Program};
use crate::report;
use crate::report::{NodeRunDetail, ReportDetailMask, RunDetailReport, RunSummary};
use crate::strict;
use crate::strict::{Recorded, SilentCall};
use crate::text::str_eq;
use crate::trap::TrapInfo;
use crate::trace::{NoTrace, TraceMask, Traced};
use crate::value;
use crate::value::{FuncId, Value, ValueModel};
use crate::verify::VerifiedProgram;
use crate::vm;
use crate::vm::{ExecutionContext, Vm};

verus! {

/// Why a node could not run.
#[derive(Clone, Debug, PartialEq, Eq)]
pub enum GraphError {
    /// A node id was invalid.
    BadNodeId,
    /// A required input binding was missing.
    MissingInput {
        /// Node that is missing the binding.
        node: NodeId,
        /// Input name.
        name: String,
    },
    /// A required upstream output was missing.
    MissingUpstreamOutput {
        /// Upstream node.
        node: NodeId,
        /// Output name.
        name: String,
    },
    /// The node returned an unexpected number of outputs.
    BadOutputArity {
        /// Node that produced outputs.
        node: NodeId,
    },
    /// A host call recorded no access, though every call has to.
    StrictDepsViolation {
        /// Node whose execution contained the call.
        node: NodeId,
        /// Host call symbol.
        symbol: String,
        /// Signature hash of the call.
        sig_hash: SigHash,
    },
    /// Two outputs of a node have the same name.
    DuplicateOutputName {
        /// The name.
        name: String,
    },
    /// The program of the node trapped.
    Trap,
}

impl View for GraphError {
    type V = GraphErrorModel;

    open spec fn view(&self) -> GraphErrorModel {
        match self {
            GraphError::BadNodeId => GraphErrorModel::BadNodeId,
            GraphError::MissingInput { node, name } => GraphErrorModel::MissingInput {
                node: *node,
                name: name@,
            },
            GraphError::MissingUpstreamOutput { node, name } => {
                GraphErrorModel::MissingUpstreamOutput { node: *node, name: name@ }
            },
            GraphError::BadOutputArity { node } => GraphErrorModel::BadOutputArity { node: *node },
            GraphError::StrictDepsViolation { node, symbol, sig_hash } => {
                GraphErrorModel::StrictDepsViolation {
                    node: *node,
                    symbol: symbol@,
                    sig_hash: *sig_hash,
                }
            },
            GraphError::DuplicateOutputName { name } => GraphErrorModel::DuplicateOutputName {
                name: name@,
            },
            GraphError::Trap => GraphErrorModel::Trap,
        }
    }
}

/// What is said of a failure.
pub open spec fn graph_error_text(e: GraphErrorModel) -> Seq<char> {
    match e {
        GraphErrorModel::BadNodeId => "bad node id"@,
        GraphErrorModel::MissingInput { node, name } => "missing input binding: node="@
            + digits::decimal(node.0 as nat) + " name="@ + name,
        GraphErrorModel::MissingUpstreamOutput { node, name } => {
            "missing upstream output: upstream_node="@ + digits::decimal(node.0 as nat)
                + " output="@ + name
        },
        GraphErrorModel::BadOutputArity { node } => "node produced unexpected output arity: node="@
            + digits::decimal(node.0 as nat),
        GraphErrorModel::StrictDepsViolation { node, symbol, sig_hash } => {
            "strict deps violation: node="@ + digits::decimal(node.0 as nat) + " host_call="@
                + symbol + " sig_hash="@ + digits::decimal(sig_hash.0 as nat)
        },
        GraphErrorModel::DuplicateOutputName { name } => "duplicate output name: "@ + name,
        GraphErrorModel::Trap => "vm trapped during execution"@,
    }
}

impl GraphError {
    /// What is said of this failure.
    #[must_use]
    pub fn message(&self) -> (s: String)
        ensures
            s@ == graph_error_text(self@),
    {
        let mut s = String::new();
        match self {
            GraphError::BadNodeId => {
                s.append("bad node id");
            },
            GraphError::MissingInput { node, name } => {
                s.append("missing input binding: node=");
                assert(s@ =~= "missing input binding: node="@);
                push_decimal(&mut s, node.0);
                s.append(" name=");
                s.append(name.as_str());
            },
            GraphError::MissingUpstreamOutput { node, name } => {
                s.append("missing upstream output: upstream_node=");
                assert(s@ =~= "missing upstream output: upstream_node="@);
                push_decimal(&mut s, node.0);
                s.append(" output=");
                s.append(name.as_str());
            },
            GraphError::BadOutputArity { node } => {
                s.append("node produced unexpected output arity: node=");
                assert(s@ =~= "node produced unexpected output arity: node="@);
                push_decimal(&mut s, node.0);
            },
            GraphError::StrictDepsViolation { node, symbol, sig_hash } => {
                s.append("strict deps violation: node=");
                assert(s@ =~= "strict deps violation: node="@);
                push_decimal(&mut s, node.0);
                s.append(" host_call=");
                s.append(symbol.as_str());
                s.append(" sig_hash=");
                push_decimal(&mut s, sig_hash.0);
            },
            GraphError::DuplicateOutputName { name } => {
                s.append("duplicate output name: ");
                assert(s@ =~= "duplicate output name: "@);
                s.append(name.as_str());
            },
            GraphError::Trap => {
                s.append("vm trapped during execution");
            },
        }
        assert(s@ =~= graph_error_text(self@));
        s
    }
}

/// The outputs of a node, by their names.
pub type NodeOutputs = NameMap<Value>;

/// The contents of outputs.
pub open spec fn output_models(m: Map<Seq<char>, Value>) -> Map<Seq<char>, ValueModel> {
    m.map_values(|v: Value| v@)
}

/// A node that calls back.
pub trait NativeNodeFn {
    /// Computes the outputs of the node, in the order of their names, from its inputs, in the order
    /// of theirs. What it reads besides can be recorded.
    fn call(&mut self, args: &[Value], access: &mut Recorded<NoAccess>) -> Result<
        Vec<Value>,
        GraphError,
    >;
}

/// What a node calls back.
pub struct Callback<C> {
    callback: C,
    given: Ghost<C>,
}

impl<C> Callback<C> {
    /// The callback, as it was given.
    pub closed spec fn given(&self) -> Given<C> {
        graph_model::given(self.given@)
    }

    /// A callback that has not been called.
    pub fn new(callback: C) -> (c: Self)
        ensures
            c.given() == graph_model::given(callback),
    {
        let ghost given = callback;
        Callback { callback, given: Ghost(given) }
    }
}

/// A history of the calls of nodes that call back.
pub struct Callbacks {
    done: Ghost<Seq<NativeCall>>,
}

impl Callbacks {
    /// The calls, in order.
    pub closed spec fn done(&self) -> Seq<NativeCall> {
        self.done@
    }

    /// No calls.
    pub fn new() -> (c: Self)
        ensures
            c.done() == Seq::<NativeCall>::empty(),
    {
        Callbacks { done: Ghost(Seq::empty()) }
    }

    /// Calls back for a node, with the accesses recorded.
    pub fn call(
        &mut self,
        node: NodeId,
        callback: &mut Callback<Box<dyn NativeNodeFn>>,
        args: &[Value],
    ) -> (r: (Result<Vec<Value>, GraphError>, AccessLog))
        ensures
            final(callback).given() == old(callback).given(),
            final(self).done() == old(self).done().push(
                (NativeCall {
                    node,
                    callback: old(callback).given(),
                    args: value::value_models(args@),
                    results: results_model(r.0),
                    accesses: r.1@,
                }),
            ),
    {
        let mut access = Recorded::new(NoAccess);
        let results = callback.callback.call(args, &mut access);
        let accesses = access.into_log();
        proof {
            self.done@ = self.done@.push(
                NativeCall {
                    node,
                    callback: callback.given(),
                    args: value::value_models(args@),
                    results: results_model(results),
                    accesses: accesses@,
                },
            );
        }
        (results, accesses)
    }
}

/// What an input is bound to.
pub enum Binding {
    /// A value from outside.
    External {
        /// The value.
        value: Value,
        /// Number of the input.
        read_id: DirtyKey,
    },
    /// An output of a node.
    FromNode {
        /// The node.
        node: NodeId,
        /// Name of the output.
        output: String,
        /// Number of the output.
        read_id: DirtyKey,
    },
}

impl View for Binding {
    type V = BindingModel;

    open spec fn view(&self) -> BindingModel {
        match self {
            Binding::External { value, read_id } => BindingModel::External {
                value: value@,
                read_id: *read_id,
            },
            Binding::FromNode { node, output, read_id } => BindingModel::FromNode {
                node: *node,
                output: output@,
                read_id: *read_id,
            },
        }
    }
}

impl Binding {
    /// A copy of this binding.
    fn duplicate(&self) -> (b: Self)
        ensures
            b@ == self@,
    {
        match self {
            Binding::External { value, read_id } => Binding::External {
                value: value.duplicate(),
                read_id: *read_id,
            },
            Binding::FromNode { node, output, read_id } => Binding::FromNode {
                node: *node,
                output: output.clone(),
                read_id: *read_id,
            },
        }
    }
}

/// The contents of a binding.
pub open spec fn binding_model(b: Option<Binding>) -> Option<BindingModel> {
    match b {
        Some(b) => Some(b@),
        None => None,
    }
}

/// What a node does.
pub enum NodeKind {
    /// It runs a function of a program.
    Tape {
        /// The program.
        program: Arc<VerifiedProgram>,
        /// The function.
        entry: FuncId,
    },
    /// It calls back.
    Native {
        /// What it calls.
        callback: Callback<Box<dyn NativeNodeFn>>,
        /// Name of the node.
        name: String,
    },
}

impl View for NodeKind {
    type V = KindModel;

    open spec fn view(&self) -> KindModel {
        match self {
            NodeKind::Tape { program, entry } => KindModel::Tape {
                program: program@,
                entry: *entry,
            },
            NodeKind::Native { name, callback } => KindModel::Native {
                name: name@,
                callback: callback.given(),
            },
        }
    }
}

/// The contents of names.
pub open spec fn name_models(v: Seq<String>) -> Seq<Seq<char>> {
    v.map_values(|s: String| s@)
}

/// The contents of a log.
pub open spec fn log_model(log: Option<AccessLog>) -> Option<Seq<AccessModel>> {
    match log {
        Some(l) => Some(l@),
        None => None,
    }
}

/// A node.
pub struct Node {
    /// What the node does.
    pub kind: NodeKind,
    /// Names of the inputs, in the order of the arguments.
    pub input_names: Vec<String>,
    /// What each input is bound to.
    pub inputs: Vec<Option<Binding>>,
    /// Names of the outputs, in the order of the results.
    pub output_names: Vec<String>,
    /// Numbers of the outputs.
    pub output_ids: Vec<DirtyKey>,
    /// Outputs of the last run.
    pub outputs: NodeOutputs,
    /// Accesses of the last run, where they are collected.
    pub last_access: Option<AccessLog>,
    /// Numbers of what the last run read.
    pub last_read_ids: Vec<DirtyKey>,
    /// Whether the outputs depend on what a run read.
    pub deps_initialized: bool,
    /// How often the node ran.
    pub run_count: u64,
}

impl View for Node {
    type V = NodeModel;

    open spec fn view(&self) -> NodeModel {
        NodeModel {
            kind: self.kind@,
            input_names: name_models(self.input_names@),
            inputs: self.inputs@.map_values(|b: Option<Binding>| binding_model(b)),
            output_names: name_models(self.output_names@),
            output_ids: self.output_ids@,
            outputs: output_models(self.outputs@),
            last_access: log_model(self.last_access),
            last_read_ids: self.last_read_ids@,
            deps_initialized: self.deps_initialized,
            run_count: self.run_count,
        }
    }
}

impl Node {
    /// The parts of the node are as they should be.
    pub open spec fn wf(&self) -> bool {
        &&& self.outputs.wf()
        &&& self.kind matches NodeKind::Tape { program, .. } ==> program.wf()
    }

    /// A node that has not run and of which no input is bound.
    fn fresh(
        kind: NodeKind,
        input_names: Vec<String>,
        output_names: Vec<String>,
        output_ids: Vec<DirtyKey>,
    ) -> (n: Node)
        requires
            kind matches NodeKind::Tape { program, .. } ==> program.wf(),
        ensures
            n.wf(),
            n@ == graph_model::fresh_node(
                kind@,
                name_models(input_names@),
                name_models(output_names@),
                output_ids@,
            ),
    {
        let mut inputs: Vec<Option<Binding>> = Vec::new();
        while inputs.len() < input_names.len()
            invariant
                inputs@.len() <= input_names@.len(),
                forall|i: int| 0 <= i < inputs@.len() ==> (#[trigger] inputs@[i]) is None,
            decreases input_names@.len() - inputs@.len(),
        {
            inputs.push(None);
        }
        let n = Node {
            kind,
            input_names,
            inputs,
            output_names,
            output_ids,
            outputs: NameMap::new(),
            last_access: None,
            last_read_ids: Vec::new(),
            deps_initialized: false,
            run_count: 0,
        };
        assert(n@.outputs =~= Map::<Seq<char>, ValueModel>::empty());
        assert(n@.last_read_ids =~= Seq::<DirtyKey>::empty());
        assert(n@.inputs =~= Seq::new(n@.input_names.len(), |i: int| None));
        n
    }

    /// Whether an input has the given name.
    fn has_input(&self, name: &str) -> (b: bool)
        ensures
            b == self@.input_names.contains(name@),
    {
        let mut i: usize = 0;
        while i < self.input_names.len()
            invariant
                i <= self.input_names@.len(),
                forall|k: int| 0 <= k < i ==> (#[trigger] self.input_names@[k])@ != name@,
            decreases self.input_names@.len() - i,
        {
            if str_eq(self.input_names[i].as_str(), name) {
                assert(self@.input_names[i as int] == name@);
                return true;
            }
            i = i + 1;
        }
        proof {
            if self@.input_names.contains(name@) {
                let k = choose|k: int|
                    0 <= k < self@.input_names.len() && self@.input_names[k] == name@;
                assert(self.input_names@[k]@ == name@);
            }
        }
        false
    }

    /// Binds every input of the given name.
    fn bind(&mut self, name: &str, b: &Binding)
        requires
            old(self).wf(),
            old(self)@.inputs.len() == old(self)@.input_names.len(),
        ensures
            final(self).wf(),
            final(self)@ == graph_model::bind(old(self)@, name@, b@),
    {
        let ghost pre = *self;
        let mut i: usize = 0;
        while i < self.input_names.len()
            invariant
                i <= self.input_names@.len(),
                pre.wf(),
                self.inputs@.len() == self.input_names@.len(),
                *self == (Node { inputs: self.inputs, ..pre }),
                self.inputs@.len() == pre.inputs@.len(),
                forall|k: int|
                    0 <= k < i ==> binding_model(#[trigger] self.inputs@[k]) == (
                    if pre.input_names@[k]@ == name@ {
                        Some(b@)
                    } else {
                        binding_model(pre.inputs@[k])
                    }),
                forall|k: int|
                    i <= k < self.inputs@.len() ==> #[trigger] self.inputs@[k] == pre.inputs@[k],
            decreases self.input_names@.len() - i,
        {
            if str_eq(self.input_names[i].as_str(), name) {
                self.inputs.set(i, Some(b.duplicate()));
            }
            i = i + 1;
        }
        assert(self@.inputs =~= graph_model::bind(pre@, name@, b@).inputs);
    }

    /// The name of an output.
    fn output_name_at(&self, index: usize) -> (s: String)
        ensures
            s@ == (if index < self@.output_names.len() {
                self@.output_names[index as int]
            } else {
                "ret"@ + digits::decimal(index as nat)
            }),
    {
        if index < self.output_names.len() {
            self.output_names[index].clone()
        } else {
            ret_name(index)
        }
    }
}

/// The name of an output without a name.
fn ret_name(index: usize) -> (s: String)
    ensures
        s@ == "ret"@ + digits::decimal(index as nat),
{
    let mut s = String::new();
    s.append("ret");
    assert(s@ =~= "ret"@);
    push_decimal(&mut s, index as u64);
    s
}

/// The names of the outputs of a function.
fn labels_of(p: &Program, entry: FuncId) -> (names: Vec<String>)
    ensures
        name_models(names@) == graph_model::output_labels(p@, entry),
{
    let ret_count: usize = if (entry.0 as usize) < p.functions.len() {
        p.functions[entry.0 as usize].ret_count as usize
    } else {
        0
    };
    let mut names: Vec<String> = Vec::new();
    let mut i: usize = 0;
    while i < ret_count
        invariant
            i <= ret_count,
            ret_count == graph_model::output_count(p@, entry),
            names@.len() == i,
            forall|k: int|
                0 <= k < i ==> (#[trigger] names@[k])@ == graph_model::output_label(
                    p@,
                    entry.0,
                    k as nat,
                ),
        decreases ret_count - i,
    {
        let ret: u32 = clamp_u32(i);
        match p.function_output_name(entry.0, ret) {
            Some(name) => {
                proof {
                    vstd::utf8::encode_utf8_decode_utf8(name@);
                }
                if str_eq(name, "ret") {
                    names.push(ret_name(i));
                } else {
                    names.push(name.to_owned());
                }
            },
            None => names.push(ret_name(i)),
        }
        i = i + 1;
    }
    assert(name_models(names@) =~= graph_model::output_labels(p@, entry));
    names
}

/// The inputs of a node, resolved.
pub struct Inputs {
    /// The arguments.
    pub args: Vec<Value>,
    /// Numbers of what was read for them.
    pub read_ids: Vec<DirtyKey>,
    /// What was read for them, where accesses are collected.
    pub log: AccessLog,
}

impl Inputs {
    /// These are the inputs `r`.
    pub open spec fn are(&self, r: Resolved, collect: bool) -> bool {
        &&& value::value_models(self.args@) == r.args
        &&& self.read_ids@ == r.read_ids
        &&& self.log@ == (if collect {
            r.reads
        } else {
            Seq::empty()
        })
    }
}

/// What came back from what a node does.
pub struct Execution {
    /// Its results, or why it failed.
    pub results: Result<Vec<Value>, GraphError>,
    /// The accesses that were recorded meanwhile.
    pub accesses: AccessLog,
    /// The first host call that recorded none.
    pub silent: Option<SilentCall>,
}

/// The contents of results.
pub open spec fn results_model(r: Result<Vec<Value>, GraphError>) -> Result<
    Seq<ValueModel>,
    GraphErrorModel,
> {
    match r {
        Ok(v) => Ok(value::value_models(v@)),
        Err(e) => Err(e@),
    }
}

/// The contents of an outcome.
pub open spec fn outcome<T>(r: Result<T, GraphError>) -> Result<(), GraphErrorModel> {
    match r {
        Ok(_) => Ok(()),
        Err(e) => Err(e@),
    }
}

impl Execution {
    /// The contents of what came back, with what there is outside the nodes afterwards.
    pub open spec fn model(&self, world: World) -> Executed {
        Executed {
            results: results_model(self.results),
            accesses: self.accesses@,
            silent: strict::silent_model(self.silent),
            world,
        }
    }
}

/// A graph whose nodes are functions of programs, or call back.
///
/// An input of a node is bound to a value or to an output of another node. Running the graph runs
/// the nodes that are affected by what was invalidated since, each behind the nodes it depends on.
/// After each run of a node its outputs depend on all that was read during the run.
pub struct ExecutionGraph<H: Host, F: FloatUnit, D: DirtyEngine> {
    vm: Vm<H, F>,
    ctx: ExecutionContext,
    tracker: Tracker<D>,
    input_ids: NameMap<DirtyKey>,
    nodes: Vec<Node>,
    callbacks: Callbacks,
    scratch: Scratch,
    strict_deps: bool,
    collect_access: bool,
}

impl<H: Host, F: FloatUnit, D: DirtyEngine> View for ExecutionGraph<H, F, D> {
    type V = GraphView;

    closed spec fn view(&self) -> GraphView {
        GraphView {
            nodes: self.nodes@.map_values(|n: Node| n@),
            asked: self.tracker.asked(),
            input_ids: self.input_ids@,
            strict_deps: self.strict_deps,
            collect_access: self.collect_access,
            limits: self.vm.lim(),
            world: World {
                heap: self.vm.heap(),
                calls: self.vm.calls(),
                sums: self.vm.sums(),
                natives: self.callbacks.done(),
            },
        }
    }
}

impl<H: Host, F: FloatUnit, D: DirtyEngine> ExecutionGraph<H, F, D> {
    /// The parts of the graph are as they should be.
    pub closed spec fn wf(&self) -> bool {
        &&& self@.consistent()
        &&& self.tracker.wf()
        &&& self.vm.wf()
        &&& self.input_ids.wf()
        &&& self.scratch.wf()
        &&& self.scratch.room() <= self.nodes@.len()
        &&& forall|i: int| 0 <= i < self.nodes@.len() ==> (#[trigger] self.nodes@[i]).wf()
    }

    /// The engine.
    pub closed spec fn engine(&self) -> D {
        self.tracker.inner()
    }

    /// The host.
    pub closed spec fn host(&self) -> H {
        self.vm.outside()
    }

    /// The float unit.
    pub closed spec fn unit(&self) -> F {
        self.vm.unit()
    }

    /// The engine of a graph was asked what the graph holds to have asked, in that order and nothing
    /// else, and gave the answers that the graph holds.
    pub proof fn law_engine_was_asked(&self)
        requires
            self.wf(),
        ensures
            exists|first: D| #[trigger] chain(dirty::asks::<D>(), first, self@.asked, self.engine()),
    {
        let first = choose|first: D| #[trigger]
            chain(dirty::asks::<D>(), first, self.tracker.asked(), self.tracker.inner());
        assert(chain(dirty::asks::<D>(), first, self@.asked, self.engine()));
    }

    /// The host and the float unit of a graph were asked what the graph holds to have asked, in that
    /// order and nothing else, and gave the answers that the graph holds.
    pub proof fn law_outside_was_asked(&self)
        requires
            self.wf(),
        ensures
            exists|first: H| #[trigger]
                chain(strict::answers_calls::<H>(), first, self@.world.calls, self.host()),
            exists|first: F| #[trigger]
                chain(ieee::performs::<F>(), first, self@.world.sums, self.unit()),
    {
        let h = choose|first: H| #[trigger]
            chain(strict::answers_calls::<H>(), first, self.vm.calls(), self.vm.outside());
        assert(chain(strict::answers_calls::<H>(), h, self@.world.calls, self.host()));
        let f = choose|first: F| #[trigger]
            chain(ieee::performs::<F>(), first, self.vm.sums(), self.vm.unit());
        assert(chain(ieee::performs::<F>(), f, self@.world.sums, self.unit()));
    }

    /// What a graph asked of its engine and what its nodes hold go together.
    pub proof fn law_graph_is_consistent(&self)
        requires
            self.wf(),
        ensures
            self@.consistent(),
    {
    }

    /// A node has a binding for each input.
    pub proof fn lemma_node(&self, i: int)
        requires
            self.wf(),
            0 <= i < self@.nodes.len(),
        ensures
            self@.nodes[i].inputs.len() == self@.nodes[i].input_names.len(),
            self@.nodes[i].output_ids.len() == self@.nodes[i].output_names.len(),
    {
        assert(graph_model::node_ok(self@.asked, i, self@.nodes[i]));
    }

    /// Creates an empty graph.
    #[must_use]
    pub fn new(host: H, floats: F, engine: D, limits: Limits) -> (g: Self)
        ensures
            g.wf(),
            g@ == (GraphView {
                nodes: Seq::empty(),
                asked: Seq::empty(),
                input_ids: Map::empty(),
                strict_deps: false,
                collect_access: false,
                limits,
                world: World::empty(),
            }),
            g.engine() == engine,
            g.host() == host,
            g.unit() == floats,
    {
        let g = ExecutionGraph {
            vm: Vm::new(host, floats, limits),
            ctx: ExecutionContext::new(),
            tracker: Tracker::new(engine),
            input_ids: NameMap::new(),
            nodes: Vec::new(),
            callbacks: Callbacks::new(),
            scratch: Scratch::new(),
            strict_deps: false,
            collect_access: false,
        };
        assert(g@.nodes =~= Seq::<NodeModel>::empty());
        g
    }

    /// Sets whether every host call has to record an access.
    pub fn set_strict_deps(&mut self, strict: bool)
        requires
            old(self).wf(),
        ensures
            final(self).wf(),
            final(self)@ == (GraphView { strict_deps: strict, ..old(self)@ }),
    {
        self.strict_deps = strict;
    }

    /// Sets whether the accesses of each node are collected.
    pub fn set_collect_access_log(&mut self, collect: bool)
        requires
            old(self).wf(),
        ensures
            final(self).wf(),
            final(self)@ == (GraphView { collect_access: collect, ..old(self)@ }),
    {
        self.collect_access = collect;
    }

    /// How many nodes there are.
    #[must_use]
    pub fn node_count(&self) -> (n: usize)
        ensures
            n == self@.nodes.len(),
    {
        self.nodes.len()
    }

    /// A node.
    pub(crate) fn node_at(&self, node: NodeId) -> (n: Option<&Node>)
        requires
            self.wf(),
        ensures
            match n {
                Some(n) => self@.has(node) && n@ == self@.node(node) && n.wf(),
                None => !self@.has(node),
            },
    {
        if node.0 < self.nodes.len() as u64 {
            Some(&self.nodes[node.0 as usize])
        } else {
            None
        }
    }

    /// The accesses of the last run of a node, where they were collected.
    #[must_use]
    pub fn node_last_access(&self, node: NodeId) -> (log: Option<&AccessLog>)
        requires
            self.wf(),
        ensures
            match log {
                Some(l) => self@.has(node) && self@.node(node).last_access == Some(l@),
                None => self@.has(node) ==> self@.node(node).last_access is None,
            },
    {
        match self.node_at(node) {
            Some(n) => n.last_access.as_ref(),
            None => None,
        }
    }

    /// The outputs of the last run of a node.
    #[must_use]
    pub fn node_outputs(&self, node: NodeId) -> (outputs: Option<&NodeOutputs>)
        requires
            self.wf(),
        ensures
            match outputs {
                Some(m) => self@.has(node) && m.wf() && output_models(m@) == self@.node(
                    node,
                ).outputs,
                None => !self@.has(node),
            },
    {
        match self.node_at(node) {
            Some(n) => Some(&n.outputs),
            None => None,
        }
    }

    /// How often a node ran.
    #[must_use]
    pub fn node_run_count(&self, node: NodeId) -> (count: Option<u64>)
        requires
            self.wf(),
        ensures
            count == (if self@.has(node) {
                Some(self@.node(node).run_count)
            } else {
                None
            }),
    {
        match self.node_at(node) {
            Some(n) => Some(n.run_count),
            None => None,
        }
    }

    /// Numbers of what the last run of a node read, in increasing order.
    #[must_use]
    pub fn node_last_read_ids(&self, node: NodeId) -> (ids: Option<&[DirtyKey]>)
        requires
            self.wf(),
        ensures
            match ids {
                Some(s) => self@.has(node) && s@ == self@.node(node).last_read_ids,
                None => !self@.has(node),
            },
    {
        match self.node_at(node) {
            Some(n) => Some(n.last_read_ids.as_slice()),
            None => None,
        }
    }

    /// Asks the engine for the numbers of the outputs of a new node, and marks them dirty.
    fn number_outputs(&mut self, node: NodeId, names: &Vec<String>) -> (ids: Vec<DirtyKey>)
        ensures
            ids@.len() == names@.len(),
            final(self).nodes == old(self).nodes,
            final(self).input_ids == old(self).input_ids,
            final(self).vm == old(self).vm,
            old(self).tracker.wf() ==> final(self).tracker.wf(),
            final(self).scratch == old(self).scratch,
            final(self)@ == old(self)@.ask(
                graph_model::output_asks(node, name_models(names@), ids@, names@.len()),
            ),
    {
        let ghost ns = name_models(names@);
        let ghost pre = self@;
        let mut ids: Vec<DirtyKey> = Vec::new();
        let mut i: usize = 0;
        assert(self@ =~= pre.ask(graph_model::output_asks(node, ns, ids@, 0)));
        while i < names.len()
            invariant
                i <= names@.len(),
                ids@.len() == i,
                ns == name_models(names@),
                self.nodes == old(self).nodes,
                self.input_ids == old(self).input_ids,
                self.vm == old(self).vm,
                old(self).tracker.wf() ==> self.tracker.wf(),
                self.scratch == old(self).scratch,
                self@ == pre.ask(graph_model::output_asks(node, ns, ids@, i as nat)),
            decreases names@.len() - i,
        {
            let ghost before = ids@;
            let ghost asked = self@.asked;
            let id = self.tracker.intern(&ResourceKey::node_output(node, names[i].as_str()));
            self.tracker.mark_dirty(id);
            ids.push(id);
            i = i + 1;
            proof {
                lemma_output_asks_prefix(node, ns, before, ids@, (i - 1) as nat);
                assert(self@.asked =~= pre.asked + graph_model::output_asks(
                    node,
                    ns,
                    ids@,
                    i as nat,
                ));
            }
        }
        ids
    }

    /// Adds a node that has not run.
    fn push_node(
        &mut self,
        kind: NodeKind,
        input_names: Vec<String>,
        output_names: Vec<String>,
    ) -> (node: NodeId)
        requires
            old(self).wf(),
            old(self)@.nodes.len() < u64::MAX,
            kind matches NodeKind::Tape { program, .. } ==> program.wf(),
        ensures
            final(self).wf(),
            node == NodeId(old(self)@.nodes.len() as u64),
            exists|ids: Seq<DirtyKey>|
                ids.len() == output_names@.len() && final(self)@ == #[trigger] old(self)@.with_node(
                    kind@,
                    name_models(input_names@),
                    name_models(output_names@),
                    ids,
                ),
    {
        let ghost pre = self@;
        let ghost kind_model = kind@;
        let ghost ins = name_models(input_names@);
        let ghost outs = name_models(output_names@);
        let node = NodeId::new(self.nodes.len() as u64);
        let output_ids = self.number_outputs(node, &output_names);
        let ghost ids = output_ids@;
        let ghost mid = self.nodes@;
        let n = Node::fresh(kind, input_names, output_names, output_ids);
        self.nodes.push(n);
        proof {
            assert(self@.nodes =~= pre.nodes.push(n@));
            incremental::lemma_with_node(pre, kind_model, ins, outs, ids);
            assert(self@ =~= pre.with_node(kind_model, ins, outs, ids));
        }
        node
    }
}

impl<H: Host, F: FloatUnit, D: DirtyEngine> ExecutionGraph<H, F, D> {
    /// Adds a node that runs the function `entry` of a program.
    ///
    /// The inputs are the arguments of the function, by the given names. The outputs are its
    /// results, by the names that the program gives them; one without a name is called `ret` and
    /// its number.
    pub fn add_node(
        &mut self,
        program: Arc<VerifiedProgram>,
        entry: FuncId,
        input_names: Vec<String>,
    ) -> (node: NodeId)
        requires
            old(self).wf(),
            program.wf(),
            old(self)@.nodes.len() < u64::MAX,
        ensures
            final(self).wf(),
            node == NodeId(old(self)@.nodes.len() as u64),
            exists|ids: Seq<DirtyKey>|
                ids.len() == graph_model::output_count(program@.program, entry) && final(self)@
                    == #[trigger] old(self)@.with_node(
                    KindModel::Tape { program: program@, entry },
                    name_models(input_names@),
                    graph_model::output_labels(program@.program, entry),
                    ids,
                ),
    {
        let output_names = labels_of(program.program(), entry);
        assert(output_names@.len() == name_models(output_names@).len());
        self.push_node(NodeKind::Tape { program, entry }, input_names, output_names)
    }

    /// Adds a node that calls back. No two of its outputs may have the same name.
    pub fn add_native_node(
        &mut self,
        name: &str,
        input_names: Vec<String>,
        output_names: Vec<String>,
        callback: Box<dyn NativeNodeFn>,
    ) -> (res: Result<NodeId, GraphError>)
        requires
            old(self).wf(),
            old(self)@.nodes.len() < u64::MAX,
        ensures
            final(self).wf(),
            match graph_model::first_duplicate(name_models(output_names@)) {
                Some(i) => final(self)@ == old(self)@ && outcome(res) == Err::<(), GraphErrorModel>(
                    GraphErrorModel::DuplicateOutputName { name: output_names@[i]@ },
                ),
                None => res == Ok::<NodeId, GraphError>(NodeId(old(self)@.nodes.len() as u64))
                    && exists|ids: Seq<DirtyKey>|
                    ids.len() == output_names@.len() && final(self)@
                        == #[trigger] old(self)@.with_node(
                        KindModel::Native { name: name@, callback: graph_model::given(callback) },
                        name_models(input_names@),
                        name_models(output_names@),
                        ids,
                    ),
            },
            graph_model::first_duplicate(name_models(output_names@)) is None ==> {
                let before = old(self)@.nodes;
                let after = final(self)@.nodes;
                let n = after[before.len() as int];
                &&& res == Ok::<NodeId, GraphError>(NodeId(before.len() as u64))
                &&& final(self)@ == (GraphView {
                    nodes: after,
                    asked: old(self)@.asked + graph_model::output_asks(
                        NodeId(before.len() as u64),
                        n.output_names,
                        n.output_ids,
                        n.output_names.len(),
                    ),
                    ..old(self)@
                })
                &&& after.len() == before.len() + 1
                &&& after.take(before.len() as int) == before
                &&& n.kind is Native
                &&& n.kind->Native_name == name@
                &&& n.input_names == name_models(input_names@)
                &&& n.output_names == name_models(output_names@)
                &&& n.output_ids.len() == output_names@.len()
                &&& forall|i: int| 0 <= i < n.inputs.len() ==> (#[trigger] n.inputs[i]) is None
                &&& n.inputs.len() == input_names@.len()
                &&& n.outputs == Map::<Seq<char>, ValueModel>::empty()
                &&& n.run_count == 0
            },
    {
        match find_duplicate(&output_names) {
            Some(i) => {
                return Err(GraphError::DuplicateOutputName { name: output_names[i].clone() });
            },
            None => {},
        }
        let node = self.push_node(
            NodeKind::Native { callback: Callback::new(callback), name: name.to_owned() },
            input_names,
            output_names,
        );
        assert(self@.nodes.take(old(self)@.nodes.len() as int) =~= old(self)@.nodes);
        Ok(node)
    }

    /// Binds the inputs of a node with the given name to a value. A node that declares the name more
    /// than once has all of them bound.
    ///
    /// The name is that of the key, too, so `invalidate_input` with the same name has the nodes run
    /// again that read it.
    pub fn set_input_value(&mut self, node: NodeId, name: &str, value: Value)
        requires
            old(self).wf(),
        ensures
            final(self).wf(),
            old(self)@.input_set(node, name@, value@, final(self)@),
    {
        if node.0 >= self.nodes.len() as u64 || !self.nodes[node.0 as usize].has_input(name) {
            return;
        }
        let ghost pre = self@;
        let index: usize = node.0 as usize;
        let read_id = self.tracker.intern(&ResourceKey::input(name));
        let b = Binding::External { value, read_id };
        let ghost bm = b@;
        let ghost ask = seq![graph_model::asked_input(name@, read_id)];
        assert(self@ =~= pre.ask(ask));
        proof {
            incremental::lemma_ask(pre, ask);
            assert(graph_model::node_ok(pre.asked, index as int, pre.nodes[index as int]));
            assert(self@.asked[pre.asked.len() as int] == graph_model::asked_input(name@, read_id));
            incremental::lemma_bind(pre.ask(ask), node, name@, bm);
        }
        self.nodes[index].bind(name, &b);
        proof {
            assert(self@.nodes =~= pre.put(node, graph_model::bind(pre.node(node), name@, bm)).nodes);
            assert(self@ =~= pre.ask(ask).put(
                node,
                graph_model::bind(pre.node(node), name@, bm),
            ));
            assert(self@ =~= pre.put(node, graph_model::bind(pre.node(node), name@, bm)).ask(ask));
        }
    }

    /// Connects an output of the node `from` to the inputs of the node `to` with the given name.
    ///
    /// Until `to` runs, its outputs depend on that output, and they are marked dirty.
    pub fn connect(&mut self, from: NodeId, output: &str, to: NodeId, input: &str)
        requires
            old(self).wf(),
        ensures
            final(self).wf(),
            old(self)@.connected(from, output@, to, input@, final(self)@),
    {
        if to.0 >= self.nodes.len() as u64 {
            return;
        }
        let ghost pre = self@;
        let index: usize = to.0 as usize;
        let read_id = self.tracker.intern(&ResourceKey::node_output(from, output));
        let b = Binding::FromNode { node: from, output: output.to_owned(), read_id };
        let ghost bm = b@;
        let ghost first = seq![graph_model::asked_output(from, output@, read_id)];
        assert(self@ =~= pre.ask(first));
        proof {
            incremental::lemma_ask(pre, first);
            assert(graph_model::node_ok(pre.asked, index as int, pre.nodes[index as int]));
            assert(self@.asked[pre.asked.len() as int] == graph_model::asked_output(
                from,
                output@,
                read_id,
            ));
        }
        self.nodes[index].bind(input, &b);
        let ghost n = graph_model::bind(pre.node(to), input@, bm);
        let ghost mid = pre.ask(first).put(to, n);
        assert(self@.nodes =~= mid.nodes);
        assert(self@ =~= mid);
        let ghost outs = pre.node(to).output_ids;
        let mut k: usize = 0;
        assert(self@ =~= mid.ask(graph_model::wire_asks(outs, read_id, 0)));
        while k < self.nodes[index].output_ids.len()
            invariant
                index < self.nodes@.len(),
                outs == self.nodes@[index as int].output_ids@,
                k <= outs.len(),
                self.scratch == old(self).scratch,
                self.input_ids == old(self).input_ids,
                self.vm == old(self).vm,
                old(self).tracker.wf() ==> self.tracker.wf(),
                forall|i: int| 0 <= i < self.nodes@.len() ==> (#[trigger] self.nodes@[i]).wf(),
                self@ == mid.ask(graph_model::wire_asks(outs, read_id, k as nat)),
                self.nodes@.len() == old(self).nodes@.len(),
            decreases outs.len() - k,
        {
            let dst = self.nodes[index].output_ids[k];
            self.tracker.add_dependency(dst, read_id);
            self.tracker.mark_dirty(dst);
            k = k + 1;
            assert(self@.asked =~= mid.asked + graph_model::wire_asks(outs, read_id, k as nat));
        }
        proof {
            let wires = graph_model::wire_asks(outs, read_id, outs.len());
            incremental::lemma_wire_asks(outs, read_id, outs.len());
            incremental::lemma_ask(pre.ask(first), wires);
            let asked = pre.ask(first).ask(wires);
            assert forall|k: int| 0 <= k < outs.len() implies dirty::dependencies(
                asked.asked,
                #[trigger] asked.node(to).output_ids[k],
            ).contains(read_id) by {
                incremental::lemma_wired(pre.ask(first).asked, outs, read_id, outs.len(), k);
            }
            dirty::lemma_interned_grows(
                pre.ask(first).asked,
                wires,
                graph_model::output_key(from, output@),
                read_id,
            );
            incremental::lemma_bind(asked, to, input@, bm);
            assert(self@ =~= asked.put(to, n));
            assert(self@ =~= pre.put(to, n).ask(first + wires));
        }
    }

    /// Marks an input dirty, by its name.
    pub fn invalidate_input(&mut self, name: &str)
        requires
            old(self).wf(),
        ensures
            final(self).wf(),
            old(self)@.input_invalidated(name@, final(self)@),
    {
        let ghost pre = self@;
        let id = self.intern_input_id(name);
        let ghost mid = self@;
        self.tracker.mark_dirty(id);
        proof {
            let more = seq![Asked::MarkDirty { id }];
            incremental::lemma_ask(mid, more);
            assert(self@ =~= mid.ask(more));
            if !pre.input_ids.contains_key(name@) {
                assert(self@ =~= (GraphView {
                    input_ids: pre.input_ids.insert(name@, id),
                    ..pre
                }).ask(seq![graph_model::asked_input(name@, id), Asked::MarkDirty { id }]));
            }
        }
    }

    /// Marks a key dirty.
    pub fn invalidate(&mut self, key: ResourceKey)
        requires
            old(self).wf(),
        ensures
            final(self).wf(),
            old(self)@.invalidated(key@, final(self)@),
    {
        let ghost pre = self@;
        let id = self.tracker.intern(&key);
        self.tracker.mark_dirty(id);
        proof {
            let more = seq![graph_model::asked_key(key@, id), Asked::MarkDirty { id }];
            incremental::lemma_ask(pre, more);
            assert(self@ =~= pre.ask(more));
        }
    }

    /// Marks a key dirty that a host names.
    pub fn invalidate_tape_key(&mut self, key: ResourceKeyRef<'_>)
        requires
            old(self).wf(),
        ensures
            final(self).wf(),
            match key {
                ResourceKeyRef::Input(name) => old(self)@.input_invalidated(name@, final(self)@),
                _ => old(self)@.invalidated(access::borrowed_key(key), final(self)@),
            },
    {
        match key {
            ResourceKeyRef::Input(name) => self.invalidate_input(name),
            _ => {
                self.invalidate(ResourceKey::from_borrowed(key));
            },
        }
    }

    /// The number of an input. The engine is asked for it once.
    fn intern_input_id(&mut self, name: &str) -> (id: DirtyKey)
        requires
            old(self).wf(),
        ensures
            final(self).wf(),
            if old(self)@.input_ids.contains_key(name@) {
                id == old(self)@.input_ids[name@] && final(self)@ == old(self)@
            } else {
                final(self)@ == (GraphView {
                    input_ids: old(self)@.input_ids.insert(name@, id),
                    ..old(self)@
                }).ask(seq![graph_model::asked_input(name@, id)])
            },
    {
        match self.input_ids.get(name) {
            Some(id) => {
                return *id;
            },
            None => {},
        }
        let ghost pre = self@;
        let id = self.tracker.intern(&ResourceKey::input(name));
        self.input_ids.insert(name.to_owned(), id);
        proof {
            let more = seq![graph_model::asked_input(name@, id)];
            incremental::lemma_ask(pre, more);
            assert(self@.asked =~= pre.ask(more).asked);
            assert(self@.asked[pre.asked.len() as int] == more[0]);
            assert(dirty::interned(self@.asked, KeyModel::Input(name@), id));
            assert(self@ =~= (GraphView {
                input_ids: pre.input_ids.insert(name@, id),
                ..pre
            }).ask(more));
            assert forall|k: Seq<char>| #[trigger]
                self@.input_ids.contains_key(k) implies dirty::interned(
                self@.asked,
                KeyModel::Input(k),
                self@.input_ids[k],
            ) by {
                if k != name@ {
                    assert(pre.ask(more).input_ids.contains_key(k));
                }
            }
            assert(self@.nodes =~= pre.ask(more).nodes);
        }
        id
    }
}

impl<H: Host, F: FloatUnit, D: DirtyEngine> ExecutionGraph<H, F, D> {
    /// The inputs of a node, or why one of them cannot be read.
    pub fn resolve_inputs(&self, node: NodeId) -> (res: Result<Inputs, GraphError>)
        requires
            self.wf(),
        ensures
            match (res, self@.inputs_of(node)) {
                (Ok(i), Ok(r)) => i.are(r, self@.collect_access),
                (Err(e), Err(m)) => e@ == m,
                _ => false,
            },
    {
        if node.0 >= self.nodes.len() as u64 {
            return Err(GraphError::BadNodeId);
        }
        let n: &Node = &self.nodes[node.0 as usize];
        let ghost v = self@;
        assert(n@ == v.node(node));
        assert(graph_model::node_ok(v.asked, node.0 as int, v.nodes[node.0 as int]));
        let mut inputs = Inputs { args: Vec::new(), read_ids: Vec::new(), log: AccessLog::new() };
        assert(value::value_models(inputs.args@) =~= Seq::<ValueModel>::empty());
        assert(inputs.read_ids@ =~= Seq::<DirtyKey>::empty());
        let mut slot: usize = 0;
        while slot < n.input_names.len()
            invariant
                slot <= n.input_names@.len(),
                self.wf(),
                v == self@,
                v.has(node),
                n@ == v.node(node),
                n.inputs@.len() == n.input_names@.len(),
                match v.resolved(node, slot as nat) {
                    Ok(r) => inputs.are(r, self.collect_access),
                    Err(_) => false,
                },
            decreases n.input_names@.len() - slot,
        {
            let ghost r = v.resolved(node, slot as nat)->Ok_0;
            let ghost x = v.read_input(node, slot as int);
            assert(v.node(node).inputs[slot as int] == binding_model(n.inputs@[slot as int]));
            assert(v.node(node).input_names[slot as int] == n.input_names@[slot as int]@);
            match self.read_input(node, n, slot) {
                Err(e) => {
                    proof {
                        lemma_resolve_fails(v, node, (slot + 1) as nat, n.input_names@.len());
                    }
                    return Err(e);
                },
                Ok((val, read_id, key)) => {
                    let ghost vm = val@;
                    let ghost args = inputs.args@;
                    inputs.args.push(val);
                    inputs.read_ids.push(read_id);
                    if self.collect_access {
                        inputs.log.push(Access::Read(key));
                    }
                    assert(value::value_models(inputs.args@) =~= value::value_models(args).push(vm));
                },
            }
            slot = slot + 1;
        }
        Ok(inputs)
    }

    /// What an input of a node reads: the value, the number of its key and the key.
    fn read_input(&self, node: NodeId, n: &Node, slot: usize) -> (res: Result<
        (Value, DirtyKey, ResourceKey),
        GraphError,
    >)
        requires
            self.wf(),
            self@.has(node),
            n@ == self@.node(node),
            slot < n.inputs@.len(),
            n.inputs@.len() == n.input_names@.len(),
        ensures
            match (res, self@.read_input(node, slot as int)) {
                (Ok(t), Ok(x)) => t.0@ == x.value && t.1 == x.read_id && t.2@ == x.key,
                (Err(e), Err(m)) => e@ == m,
                _ => false,
            },
    {
        assert(self@.node(node).inputs[slot as int] == binding_model(n.inputs@[slot as int]));
        assert(self@.node(node).input_names[slot as int] == n.input_names@[slot as int]@);
        let name: &String = &n.input_names[slot];
        match &n.inputs[slot] {
            None => Err(GraphError::MissingInput { node, name: name.clone() }),
            Some(Binding::External { value, read_id }) => Ok(
                (value.duplicate(), *read_id, ResourceKey::input(name.as_str())),
            ),
            Some(Binding::FromNode { node: up, output, read_id }) => {
                match self.node_at(*up) {
                    None => Err(GraphError::BadNodeId),
                    Some(source) => match source.outputs.get(output.as_str()) {
                        None => Err(
                            GraphError::MissingUpstreamOutput { node: *up, name: output.clone() },
                        ),
                        Some(v) => Ok(
                            (
                                v.duplicate(),
                                *read_id,
                                ResourceKey::node_output(*up, output.as_str()),
                            ),
                        ),
                    },
                }
            },
        }
    }

    /// Has a node do what it does.
    fn execute_kind(&mut self, node: NodeId, args: &[Value]) -> (x: Execution)
        requires
            old(self).wf(),
            old(self)@.has(node),
        ensures
            final(self).wf(),
            final(self)@ == (GraphView { world: final(self)@.world, ..old(self)@ }),
            old(self)@.executes(
                node,
                value::value_models(args@),
                x.model(final(self)@.world),
            ),
    {
        let ghost pre = self@;
        let ghost nodes = self.nodes@;
        if node.0 >= self.nodes.len() as u64 {
            return Execution {
                results: Err(GraphError::BadNodeId),
                accesses: AccessLog::new(),
                silent: None,
            };
        }
        let index: usize = node.0 as usize;
        let _earlier = self.vm.take_silent();
        let ghost vm0 = self.vm;
        let ghost mut ended: Result<Seq<ValueModel>, TrapInfo> = Ok(Seq::empty());
        let (results, accesses) = match &mut self.nodes[index].kind {
            NodeKind::Tape { program, entry } => {
                let mut trace = Traced::new(NoTrace);
                let mut access = Recorded::new(NoAccess);
                let res = self.vm.run_with_ctx_and_access_sink(
                    &mut self.ctx,
                    program,
                    *entry,
                    args,
                    TraceMask::none(),
                    &mut trace,
                    &mut access,
                );
                let accesses = access.into_log();
                proof {
                    vm::lemma_outside(vm0, self.vm);
                    ended = vm::result_of(res);
                    let calls = vm::since(pre.world.calls, self.vm.calls());
                    assert(accesses@ =~= strict::told(calls));
                    assert(vm::ends_in(
                        program@,
                        pre.limits,
                        machine::start(
                            program@,
                            pre.limits,
                            pre.world.heap,
                            *entry,
                            value::value_models(args@),
                        ),
                        ended,
                        self.vm.heap(),
                        calls,
                        vm::since(pre.world.sums, self.vm.sums()),
                    ));
                }
                let results = match res {
                    Ok(values) => Ok(values),
                    Err(_) => Err(GraphError::Trap),
                };
                assert(results_model(results) == graph_model::tape_results(ended));
                (results, accesses)
            },
            NodeKind::Native { callback, .. } => self.callbacks.call(node, callback, args),
        };
        let silent = self.vm.take_silent();
        let x = Execution { results, accesses, silent };
        proof {
            assert(self.nodes@[index as int]@ == nodes[index as int]@);
            assert(self@.nodes =~= pre.nodes);
            assert(self@ =~= GraphView { world: self@.world, ..pre });
            let xm = x.model(self@.world);
            match pre.node(node).kind {
                KindModel::Tape { program, entry } => {
                    let from = machine::start(
                        program,
                        pre.limits,
                        pre.world.heap,
                        entry,
                        value::value_models(args@),
                    );
                    let calls = vm::since(pre.world.calls, xm.world.calls);
                    let sums = vm::since(pre.world.sums, xm.world.sums);
                    assert(xm.results == graph_model::tape_results(ended));
                    assert(vm::ends_in(program, pre.limits, from, ended, xm.world.heap, calls, sums));
                },
                KindModel::Native { .. } => {},
            }
        }
        x
    }
}

impl<H: Host, F: FloatUnit, D: DirtyEngine> ExecutionGraph<H, F, D> {
    /// Asks the engine for the numbers of the keys that accesses read.
    fn number_reads(&mut self, accesses: &AccessLog) -> (ids: Vec<DirtyKey>)
        ensures
            ids@.len() == graph_model::read_keys(accesses@).len(),
            final(self).nodes == old(self).nodes,
            final(self).input_ids == old(self).input_ids,
            final(self).vm == old(self).vm,
            old(self).tracker.wf() ==> final(self).tracker.wf(),
            final(self).scratch == old(self).scratch,
            final(self)@ == old(self)@.ask(
                graph_model::intern_asks(
                    graph_model::read_keys(accesses@),
                    ids@,
                    graph_model::read_keys(accesses@).len(),
                ),
            ),
    {
        let ghost pre = self@;
        let ghost all = accesses@;
        let mut ids: Vec<DirtyKey> = Vec::new();
        let mut i: usize = 0;
        assert(all.take(0) =~= Seq::<AccessModel>::empty());
        assert(self@ =~= pre.ask(graph_model::intern_asks(Seq::empty(), ids@, 0)));
        while i < accesses.len()
            invariant
                i <= accesses@.len(),
                all == accesses@,
                ids@.len() == graph_model::read_keys(all.take(i as int)).len(),
                self.nodes == old(self).nodes,
                self.input_ids == old(self).input_ids,
                self.vm == old(self).vm,
                old(self).tracker.wf() ==> self.tracker.wf(),
                self.scratch == old(self).scratch,
                self@ == pre.ask(
                    graph_model::intern_asks(
                        graph_model::read_keys(all.take(i as int)),
                        ids@,
                        ids@.len(),
                    ),
                ),
            decreases accesses@.len() - i,
        {
            let ghost keys = graph_model::read_keys(all.take(i as int));
            let ghost before = ids@;
            assert(all.take(i + 1).drop_last() =~= all.take(i as int));
            assert(all.take(i + 1).last() == all[i as int]);
            match accesses.get(i) {
                Some(Access::Read(k)) => {
                    let id = self.tracker.intern(k);
                    ids.push(id);
                    proof {
                        lemma_intern_asks_prefix(keys, keys.push(k@), before, ids@, before.len());
                        assert(self@.asked =~= pre.asked + graph_model::intern_asks(
                            keys.push(k@),
                            ids@,
                            ids@.len(),
                        ));
                    }
                },
                _ => {},
            }
            i = i + 1;
        }
        assert(all.take(i as int) =~= all);
        ids
    }

    /// Lets the outputs of a node depend on the given keys.
    fn set_output_dependencies(&mut self, index: usize, on: &Vec<DirtyKey>)
        requires
            index < old(self).nodes@.len(),
        ensures
            final(self).nodes == old(self).nodes,
            final(self).input_ids == old(self).input_ids,
            final(self).vm == old(self).vm,
            old(self).tracker.wf() ==> final(self).tracker.wf(),
            final(self).scratch == old(self).scratch,
            final(self)@ == old(self)@.ask(
                graph_model::dependency_asks(
                    old(self).nodes@[index as int].output_ids@,
                    on@,
                    old(self).nodes@[index as int].output_ids@.len(),
                ),
            ),
    {
        let ghost pre = self@;
        let ghost outs = self.nodes@[index as int].output_ids@;
        let mut k: usize = 0;
        assert(self@ =~= pre.ask(graph_model::dependency_asks(outs, on@, 0)));
        while k < self.nodes[index].output_ids.len()
            invariant
                index < self.nodes@.len(),
                outs == self.nodes@[index as int].output_ids@,
                k <= outs.len(),
                self.nodes == old(self).nodes,
                self.input_ids == old(self).input_ids,
                self.vm == old(self).vm,
                old(self).tracker.wf() ==> self.tracker.wf(),
                self.scratch == old(self).scratch,
                self@ == pre.ask(graph_model::dependency_asks(outs, on@, k as nat)),
            decreases outs.len() - k,
        {
            let out = self.nodes[index].output_ids[k];
            self.tracker.set_dependencies(out, on.as_slice());
            k = k + 1;
            assert(self@.asked =~= pre.asked + graph_model::dependency_asks(outs, on@, k as nat));
        }
    }

    /// Takes up what came back from a node: its outputs, and what they depend on.
    pub fn finish_node(&mut self, node: NodeId, inputs: Inputs, x: Execution) -> (res: Result<
        (),
        GraphError,
    >)
        requires
            old(self).wf(),
            old(self)@.inputs_of(node) is Ok,
            inputs.are(old(self)@.inputs_of(node)->Ok_0, old(self)@.collect_access),
        ensures
            final(self).wf(),
            exists|ids: Seq<DirtyKey>|
                ids.len() == graph_model::read_keys(x.accesses@).len()
                    && #[trigger] old(self)@.finished(
                    node,
                    old(self)@.inputs_of(node)->Ok_0,
                    x.model(old(self)@.world),
                    ids,
                ) == (final(self)@, outcome(res)),
    {
        let ghost pre = self@;
        let ghost r = pre.inputs_of(node)->Ok_0;
        let ghost xm = x.model(pre.world);
        let ghost nothing = Seq::new(graph_model::read_keys(x.accesses@).len(), |i: int| DirtyKey(0));
        let index: usize = if node.0 < self.nodes.len() as u64 {
            node.0 as usize
        } else {
            return Err(GraphError::BadNodeId);
        };
        let Inputs { args: _, read_ids, log } = inputs;
        let Execution { results, accesses, silent } = x;
        let results = match results {
            Ok(v) => v,
            Err(e) => {
                assert(pre.finished(node, r, xm, nothing) == (pre, Err::<(), GraphErrorModel>(e@)));
                return Err(e);
            },
        };
        let is_tape = matches!(self.nodes[index].kind, NodeKind::Tape { .. });
        if self.strict_deps && is_tape {
            match silent {
                Some(c) => {
                    let e = GraphError::StrictDepsViolation {
                        node,
                        symbol: c.symbol,
                        sig_hash: c.sig_hash,
                    };
                    assert(pre.finished(node, r, xm, nothing) == (
                        pre,
                        Err::<(), GraphErrorModel>(e@),
                    ));
                    return Err(e);
                },
                None => {},
            }
        }
        let more = self.number_reads(&accesses);
        let ghost ids = more@;
        let ghost g1 = self@;
        proof {
            incremental::lemma_finished(pre, node, r, xm, ids);
        }
        if results.len() != self.nodes[index].output_names.len() {
            let e = GraphError::BadOutputArity { node };
            assert(pre.finished(node, r, xm, ids) == (g1, Err::<(), GraphErrorModel>(e@)));
            return Err(e);
        }
        let mut all_ids = read_ids;
        let mut more = more;
        all_ids.append(&mut more);
        let ghost read_seq = r.read_ids + ids;
        assert(all_ids@ =~= read_seq);
        let canonical = canonical_keys(&all_ids);
        let ghost models = value::value_models(results@);
        let ghost n0 = pre.node(node);
        assert(node == NodeId(index as u64));
        let log = self.store_results(index, node, results, log, accesses);
        let ghost log_model = log_model(log);
        let ghost done = graph_model::committed(n0, models, read_seq, log_model);
        assert(self.nodes@[index as int]@ == self@.nodes[index as int]);
        assert(self.nodes@[index as int]@ == (NodeModel { outputs: done.outputs, ..n0 }));
        self.set_output_dependencies(index, &canonical);
        let ghost asked = self@.asked;
        let n: &mut Node = &mut self.nodes[index];
        n.last_read_ids = canonical;
        n.deps_initialized = true;
        n.last_access = log;
        n.run_count = if n.run_count < u64::MAX {
            n.run_count + 1
        } else {
            n.run_count
        };
        proof {
            let post = pre.finished(node, r, xm, ids).0;
            assert(self.nodes@[index as int]@ =~= done);
            assert(post.nodes == pre.nodes.update(index as int, done));
            assert(self@.nodes =~= post.nodes);
            assert(self@.asked == asked);
            assert(self@ =~= post);
        }
        Ok(())
    }

    /// Stores the results of a node under the names of its outputs. Gives the accesses of the run
    /// back where they are collected.
    fn store_results(
        &mut self,
        index: usize,
        node: NodeId,
        results: Vec<Value>,
        log: AccessLog,
        accesses: AccessLog,
    ) -> (out: Option<AccessLog>)
        requires
            index < old(self).nodes@.len(),
            results@.len() == old(self).nodes@[index as int].output_names@.len(),
            old(self).nodes@[index as int].wf(),
        ensures
            final(self).input_ids == old(self).input_ids,
            final(self).vm == old(self).vm,
            old(self).tracker.wf() ==> final(self).tracker.wf(),
            final(self).scratch == old(self).scratch,
            final(self).nodes@.len() == old(self).nodes@.len(),
            forall|i: int|
                0 <= i < old(self).nodes@.len() && i != index ==> final(self).nodes@[i] == old(
                    self,
                ).nodes@[i],
            final(self).nodes@[index as int].wf(),
            final(self)@ == old(self)@.put(
                NodeId(index as u64),
                (NodeModel {
                    outputs: graph_model::store_outputs(
                        old(self)@.nodes[index as int].outputs,
                        old(self)@.nodes[index as int].output_names,
                        value::value_models(results@),
                        results@.len(),
                    ),
                    ..old(self)@.nodes[index as int]
                }),
            ),
            out matches Some(l) ==> l@ == log@ + accesses@ + graph_model::output_writes(
                node,
                old(self)@.nodes[index as int].output_names,
            ),
            out is Some == old(self)@.collect_access,
    {
        let ghost pre = self@;
        let ghost nodes = self.nodes@;
        let ghost names = pre.nodes[index as int].output_names;
        let ghost models = value::value_models(results@);
        let ghost all = results@;
        let ghost start = pre.nodes[index as int].outputs;
        let count: usize = results.len();
        let collect = self.collect_access;
        let mut log = log;
        if collect {
            push_all(&mut log, &accesses);
        }
        let ghost base = log@;
        let mut i: usize = 0;
        assert(log@ =~= base + graph_model::output_writes(node, names.take(0)));
        while i < count
            invariant
                i <= count,
                count == all.len(),
                results@ == all,
                models == value::value_models(all),
                nodes.len() == self.nodes@.len(),
                index < nodes.len(),
                names == name_models(nodes[index as int].output_names@),
                names.len() == count,
                self.nodes@[index as int] == (Node {
                    outputs: self.nodes@[index as int].outputs,
                    ..nodes[index as int]
                }),
                self.nodes@[index as int].wf(),
                output_models(self.nodes@[index as int].outputs@) == graph_model::store_outputs(
                    start,
                    names,
                    models,
                    i as nat,
                ),
                forall|k: int|
                    0 <= k < nodes.len() && k != index ==> self.nodes@[k] == #[trigger] nodes[k],
                self.input_ids == old(self).input_ids,
                self.vm == old(self).vm,
                old(self).tracker.wf() ==> self.tracker.wf(),
                self.scratch == old(self).scratch,
                self.tracker == old(self).tracker,
                self.vm == old(self).vm,
                self.callbacks == old(self).callbacks,
                self.strict_deps == old(self).strict_deps,
                self.collect_access == old(self).collect_access,
                collect ==> log@ == base + graph_model::output_writes(node, names.take(i as int)),
            decreases count - i,
        {
            let name = self.nodes[index].output_name_at(i);
            let ghost nm = name@;
            let ghost done = names.take(i as int);
            let ghost before = self.nodes@[index as int].outputs@;
            if collect {
                log.push(Access::Write(ResourceKey::node_output(node, name.as_str())));
                assert(names.take(i + 1) =~= done.push(nm));
                assert(graph_model::output_writes(node, names.take(i + 1))
                    =~= graph_model::output_writes(node, done).push(
                    AccessModel::Write(graph_model::output_key(node, nm)),
                ));
                assert(log@ =~= base + graph_model::output_writes(node, names.take(i + 1)));
            }
            let v = results[i].duplicate();
            self.nodes[index].outputs.insert(name, v);
            proof {
                assert(nm == names[i as int]);
                assert(models[i as int] == v@);
                assert(output_models(self.nodes@[index as int].outputs@) =~= output_models(
                    before,
                ).insert(nm, v@));
            }
            i = i + 1;
        }
        proof {
            assert(names.take(i as int) =~= names);
            let post = pre.put(
                NodeId(index as u64),
                NodeModel {
                    outputs: graph_model::store_outputs(start, names, models, all.len()),
                    ..pre.nodes[index as int]
                },
            );
            assert(self@.nodes[index as int] =~= post.nodes[index as int]);
            assert(self@.nodes =~= post.nodes);
            assert(self@ =~= post);
        }
        if collect {
            Some(log)
        } else {
            None
        }
    }
}

impl<H: Host, F: FloatUnit, D: DirtyEngine> ExecutionGraph<H, F, D> {
    /// Runs a node.
    fn run_node_internal(&mut self, node: NodeId) -> (res: Result<(), GraphError>)
        requires
            old(self).wf(),
        ensures
            final(self).wf(),
            old(self)@.node_ran(node, final(self)@, outcome(res)),
    {
        let ghost pre = self@;
        let inputs = match self.resolve_inputs(node) {
            Ok(i) => i,
            Err(e) => {
                return Err(e);
            },
        };
        let ghost r = pre.inputs_of(node)->Ok_0;
        let x = self.execute_kind(node, inputs.args.as_slice());
        let ghost mid = self@;
        let ghost xm = x.model(mid.world);
        proof {
            lemma_inputs_of(pre, mid, node);
        }
        let res = self.finish_node(node, inputs, x);
        proof {
            let ids = choose|ids: Seq<DirtyKey>|
                ids.len() == graph_model::read_keys(xm.accesses).len() && #[trigger] mid.finished(
                    node,
                    r,
                    xm,
                    ids,
                ) == (self@, outcome(res));
            assert(GraphView { world: xm.world, ..mid } == GraphView { world: xm.world, ..pre });
            assert(pre.finished(node, r, xm, ids) == (self@, outcome(res)));
        }
        res
    }

    /// Runs the nodes of a plan in order, up to the first that fails.
    fn run_plan(&mut self, nodes: &Vec<NodeId>) -> (res: Result<RunSummary, GraphError>)
        requires
            old(self).wf(),
        ensures
            final(self).wf(),
            old(self)@.plan_ran(nodes@, final(self)@, outcome(res)),
            res matches Ok(s) ==> s.executed_nodes == nodes@.len(),
    {
        let ghost pre = self@;
        let ghost mut states: Seq<GraphView> = Seq::empty().push(self@);
        let mut i: usize = 0;
        proof {
            reveal(graph_model::ran_via);
        }
        while i < nodes.len()
            invariant
                i <= nodes@.len(),
                self.wf(),
                pre == old(self)@,
                graph_model::ran_via(states, nodes@.take(i as int)),
                states[0] == pre,
                states.last() == self@,
            decreases nodes@.len() - i,
        {
            let ghost before = self@;
            assert(pre.all_ran(nodes@.take(i as int), before));
            match self.run_node_internal(nodes[i]) {
                Ok(_) => {
                    proof {
                        reveal(graph_model::ran_via);
                        let earlier = states;
                        states = states.push(self@);
                        assert forall|k: int| 0 <= k < i + 1 implies (#[trigger] states[k]).node_ran(
                            nodes@.take(i + 1)[k],
                            states[k + 1],
                            Ok::<(), GraphErrorModel>(()),
                        ) by {
                            if k < i {
                                assert(earlier[k].node_ran(
                                    nodes@.take(i as int)[k],
                                    earlier[k + 1],
                                    Ok::<(), GraphErrorModel>(()),
                                ));
                            }
                        }
                    }
                },
                Err(e) => {
                    assert(before.node_ran(nodes@[i as int], self@, Err(e@)));
                    return Err(e);
                },
            }
            i = i + 1;
        }
        assert(nodes@.take(i as int) =~= nodes@);
        Ok(RunSummary { executed_nodes: nodes.len() })
    }

    /// Plans all affected nodes.
    fn plan_all(&mut self) -> (nodes: Vec<NodeId>)
        requires
            old(self).wf(),
        ensures
            final(self).wf(),
            old(self)@.planned_all(nodes@, final(self)@),
    {
        let ghost pre = self@;
        self.scratch.start_drain(self.nodes.len());
        let keys = self.tracker.drain(None, false);
        let ghost ks = dirty::drained_models(keys@);
        let _picked = self.scratch.schedule(keys);
        let nodes = self.scratch.take_nodes();
        proof {
            let more = seq![Asked::Drain { within: None, traced: false, keys: ks }];
            incremental::lemma_ask(pre, more);
            assert(self@ =~= pre.ask(more));
            assert(nodes@ =~= plan::planned(ks, pre.nodes.len()));
        }
        nodes
    }

    /// Explains why nodes run for the given keys.
    fn explain(&mut self, picked: Vec<Drained>, mask: ReportDetailMask) -> (ds: Vec<NodeRunDetail>)
        requires
            forall|i: int|
                0 <= i < picked@.len() ==> plan::node_of((#[trigger] picked@[i])@) is Some,
        ensures
            final(self).nodes == old(self).nodes,
            final(self).input_ids == old(self).input_ids,
            final(self).vm == old(self).vm,
            old(self).tracker.wf() ==> final(self).tracker.wf(),
            final(self).scratch == old(self).scratch,
            exists|paths: Seq<Option<Seq<KeyModel>>>|
                paths.len() == picked@.len() && report::detail_models(ds@)
                    == #[trigger] graph_model::details(
                    dirty::drained_models(picked@),
                    mask,
                    paths,
                ) && final(self)@ == old(self)@.ask(
                    graph_model::path_asks(dirty::drained_models(picked@), paths, mask),
                ),
    {
        let ghost pre = self@;
        let ghost all = dirty::drained_models(picked@);
        let because = mask.contains(ReportDetailMask::BECAUSE_OF) || mask.contains(
            ReportDetailMask::WHY_PATH,
        );
        let why = mask.contains(ReportDetailMask::WHY_PATH);
        let mut ds: Vec<NodeRunDetail> = Vec::new();
        let ghost mut paths: Seq<Option<Seq<KeyModel>>> = Seq::empty();
        let mut i: usize = 0;
        assert(report::detail_models(ds@) =~= graph_model::details(all.take(0), mask, paths));
        assert(self@ =~= pre.ask(graph_model::explain_asks(all, paths, 0)));
        assert(self@ =~= pre);
        while i < picked.len()
            invariant
                i <= picked@.len(),
                all == dirty::drained_models(picked@),
                paths.len() == i,
                because == (mask.because() || mask.why()),
                why == mask.why(),
                forall|k: int|
                    0 <= k < picked@.len() ==> plan::node_of((#[trigger] picked@[k])@) is Some,
                self.nodes == old(self).nodes,
                self.input_ids == old(self).input_ids,
                self.vm == old(self).vm,
                old(self).tracker.wf() ==> self.tracker.wf(),
                self.scratch == old(self).scratch,
                report::detail_models(ds@) == graph_model::details(
                    all.take(i as int),
                    mask,
                    paths,
                ),
                self@ == (if why {
                    pre.ask(graph_model::explain_asks(all, paths, i as nat))
                } else {
                    pre
                }),
            decreases picked@.len() - i,
        {
            let ghost before = paths;
            let ghost told = report::detail_models(ds@);
            assert(all[i as int] == picked@[i as int]@);
            let key: &ResourceKey = &picked[i].key;
            let node: NodeId = match key {
                ResourceKey::NodeOutput { node, .. } => *node,
                _ => NodeId::new(0),
            };
            let because_of = if because {
                Some(key.duplicate())
            } else {
                None
            };
            let why_path: Option<Vec<ResourceKey>> = if why {
                let path = self.tracker.explain_path(picked[i].id);
                proof {
                    paths = paths.push(dirty::path_model(path));
                    lemma_explain_asks_prefix(all, before, paths, i as nat);
                    assert(self@.asked =~= pre.asked + graph_model::explain_asks(
                        all,
                        paths,
                        (i + 1) as nat,
                    ));
                }
                match path {
                    Some(p) => Some(p),
                    None => {
                        let mut own: Vec<ResourceKey> = Vec::new();
                        own.push(key.duplicate());
                        assert(access::key_models(own@) =~= seq![all[i as int].key]);
                        Some(own)
                    },
                }
            } else {
                proof {
                    paths = paths.push(None);
                }
                None
            };
            let d = NodeRunDetail { node, because_of, why_path };
            assert(d@ == graph_model::detail(all[i as int], mask, paths[i as int]));
            ds.push(d);
            i = i + 1;
            assert(report::detail_models(ds@) =~= told.push(d@));
            assert(report::detail_models(ds@) =~= graph_model::details(
                all.take(i as int),
                mask,
                paths,
            ));
        }
        proof {
            assert(all.take(i as int) =~= all);
            let asks = graph_model::path_asks(all, paths, mask);
            assert(self@ =~= pre.ask(asks));
        }
        ds
    }

    /// Plans all affected nodes, with details about each.
    fn plan_all_report(&mut self, mask: ReportDetailMask) -> (ds: Vec<NodeRunDetail>)
        requires
            old(self).wf(),
        ensures
            final(self).wf(),
            old(self)@.reported_all(mask, report::detail_models(ds@), final(self)@),
    {
        let ghost pre = self@;
        let traced = mask.contains(ReportDetailMask::WHY_PATH);
        self.scratch.start_drain(self.nodes.len());
        let keys = self.tracker.drain(None, traced);
        let ghost ks = dirty::drained_models(keys@);
        let ghost c = plan::chosen(ks, pre.nodes.len(), seq![]);
        let ghost first = graph_model::drain_ask(None, mask.why(), ks);
        let picked = self.scratch.schedule(keys);
        proof {
            incremental::lemma_ask(pre, first);
            assert(self@ =~= pre.ask(first));
            plan::lemma_chosen(ks, pre.nodes.len(), seq![]);
            assert forall|i: int| 0 <= i < picked@.len() implies plan::node_of(
                (#[trigger] picked@[i])@,
            ) is Some by {
                assert(c[i] == picked@[i]@);
            }
        }
        let ds = self.explain(picked, mask);
        proof {
            let paths = choose|paths: Seq<Option<Seq<KeyModel>>>|
                paths.len() == picked@.len() && report::detail_models(ds@)
                    == #[trigger] graph_model::details(c, mask, paths) && self@ == pre.ask(first).ask(
                    graph_model::path_asks(c, paths, mask),
                );
            let rest = graph_model::path_asks(c, paths, mask);
            lemma_path_asks(c, paths, mask);
            incremental::lemma_ask(pre.ask(first), rest);
            assert(self@ =~= pre.ask(first + rest));
            assert(pre.report_of(mask, report::detail_models(ds@), self@, ks, paths));
        }
        ds
    }

    /// Plans the affected nodes within the dependencies of a node.
    fn plan_within_dependencies_of(&mut self, node: NodeId) -> (res: Result<Vec<NodeId>, GraphError>)
        requires
            old(self).wf(),
        ensures
            final(self).wf(),
            match res {
                Ok(nodes) => old(self)@.has(node) && old(self)@.planned_within(
                    node,
                    nodes@,
                    final(self)@,
                ),
                Err(e) => !old(self)@.has(node) && e@ == GraphErrorModel::BadNodeId && final(self)@
                    == old(self)@,
            },
    {
        let ghost pre = self@;
        if node.0 >= self.nodes.len() as u64 {
            return Err(GraphError::BadNodeId);
        }
        let index: usize = node.0 as usize;
        let ghost n = pre.nodes.len();
        let ghost outs = pre.node(node).output_ids;
        self.scratch.start_drain(self.nodes.len());
        let ghost mut drains: Seq<Seq<DrainedModel>> = Seq::empty();
        let mut k: usize = 0;
        assert(self@ =~= pre.ask(graph_model::drain_asks(outs, drains, 0)));
        assert(self.scratch.nodes() =~= plan::planned(graph_model::all_drained(drains, 0), n));
        while k < self.nodes[index].output_ids.len()
            invariant
                index < self.nodes@.len(),
                n == self.nodes@.len(),
                outs == self.nodes@[index as int].output_ids@,
                k <= outs.len(),
                drains.len() == k,
                self.nodes == old(self).nodes,
                self.input_ids == old(self).input_ids,
                self.vm == old(self).vm,
                old(self).tracker.wf() ==> self.tracker.wf(),
                self.scratch.draining(),
                self.scratch.wf(),
                self.scratch.room() == n,
                self.scratch.nodes() == plan::planned(graph_model::all_drained(drains, k as nat), n),
                self@ == pre.ask(graph_model::drain_asks(outs, drains, k as nat)),
            decreases outs.len() - k,
        {
            let ghost before = drains;
            let out = self.nodes[index].output_ids[k];
            let keys = self.tracker.drain(Some(out), false);
            let ghost ks = dirty::drained_models(keys@);
            let _picked = self.scratch.schedule(keys);
            proof {
                drains = drains.push(ks);
                lemma_drain_asks_prefix(outs, before, drains, k as nat);
                lemma_planned_more(before, drains, n, k as nat);
                assert(self@.asked =~= pre.asked + graph_model::drain_asks(
                    outs,
                    drains,
                    (k + 1) as nat,
                ));
            }
            k = k + 1;
        }
        let nodes = self.scratch.take_nodes();
        proof {
            let more = graph_model::drain_asks(outs, drains, outs.len());
            lemma_drain_asks(outs, drains, outs.len());
            incremental::lemma_ask(pre, more);
            assert(self@ =~= pre.ask(more));
            assert(nodes@ == plan::planned(graph_model::all_drained(drains, outs.len()), n));
        }
        Ok(nodes)
    }

    /// Plans the affected nodes within the dependencies of a node, with details about each.
    fn plan_within_dependencies_of_report(&mut self, node: NodeId, mask: ReportDetailMask) -> (res:
        Result<Vec<NodeRunDetail>, GraphError>)
        requires
            old(self).wf(),
        ensures
            final(self).wf(),
            match res {
                Ok(ds) => old(self)@.has(node) && old(self)@.reported_within(
                    node,
                    mask,
                    report::detail_models(ds@),
                    final(self)@,
                ),
                Err(e) => !old(self)@.has(node) && e@ == GraphErrorModel::BadNodeId && final(self)@
                    == old(self)@,
            },
    {
        let ghost pre = self@;
        if node.0 >= self.nodes.len() as u64 {
            return Err(GraphError::BadNodeId);
        }
        let index: usize = node.0 as usize;
        let traced = mask.contains(ReportDetailMask::WHY_PATH);
        let ghost n = pre.nodes.len();
        let ghost outs = pre.node(node).output_ids;
        self.scratch.start_drain(self.nodes.len());
        let ghost mut drains: Seq<Seq<DrainedModel>> = Seq::empty();
        let ghost mut paths: Seq<Seq<Option<Seq<KeyModel>>>> = Seq::empty();
        let mut ds: Vec<NodeRunDetail> = Vec::new();
        let mut k: usize = 0;
        assert(self@ =~= pre.ask(graph_model::report_asks(outs, drains, paths, mask, n, 0)));
        assert(report::detail_models(ds@) =~= graph_model::report_details(
            drains,
            paths,
            mask,
            n,
            0,
        ));
        assert(self.scratch.nodes() =~= plan::planned(graph_model::all_drained(drains, 0), n));
        while k < self.nodes[index].output_ids.len()
            invariant
                index < self.nodes@.len(),
                n == self.nodes@.len(),
                outs == self.nodes@[index as int].output_ids@,
                k <= outs.len(),
                drains.len() == k,
                paths.len() == k,
                traced == mask.why(),
                self.nodes == old(self).nodes,
                self.input_ids == old(self).input_ids,
                self.vm == old(self).vm,
                old(self).tracker.wf() ==> self.tracker.wf(),
                self.scratch.draining(),
                self.scratch.wf(),
                self.scratch.room() == n,
                self.scratch.nodes() == plan::planned(graph_model::all_drained(drains, k as nat), n),
                self@ == pre.ask(
                    graph_model::report_asks(outs, drains, paths, mask, n, k as nat),
                ),
                report::detail_models(ds@) == graph_model::report_details(
                    drains,
                    paths,
                    mask,
                    n,
                    k as nat,
                ),
            decreases outs.len() - k,
        {
            let ghost before = drains;
            let ghost paths0 = paths;
            let ghost asked = self@.asked;
            let ghost told = report::detail_models(ds@);
            let out = self.nodes[index].output_ids[k];
            let keys = self.tracker.drain(Some(out), traced);
            let ghost ks = dirty::drained_models(keys@);
            let ghost seen = self.scratch.nodes();
            let picked = self.scratch.schedule(keys);
            let ghost c = plan::chosen(ks, n, seen);
            let ghost mid = self@;
            proof {
                plan::lemma_chosen(ks, n, seen);
                assert forall|i: int| 0 <= i < picked@.len() implies plan::node_of(
                    (#[trigger] picked@[i])@,
                ) is Some by {
                    assert(c[i] == picked@[i]@);
                }
            }
            let mut more = self.explain(picked, mask);
            let ghost added = report::detail_models(more@);
            let ghost now = choose|paths: Seq<Option<Seq<KeyModel>>>|
                paths.len() == picked@.len() && added == #[trigger] graph_model::details(
                    c,
                    mask,
                    paths,
                ) && self@ == mid.ask(graph_model::path_asks(c, paths, mask));
            ds.append(&mut more);
            proof {
                drains = drains.push(ks);
                paths = paths.push(now);
                lemma_report_prefix(outs, before, drains, paths0, paths, mask, n, k as nat);
                lemma_planned_more(before, drains, n, k as nat);
                assert(graph_model::newly(drains, n, k as int) == c);
                assert(self@.asked =~= asked.push(
                    Asked::Drain { within: Some(out), traced: mask.why(), keys: ks },
                ) + graph_model::path_asks(c, now, mask));
                assert(self@.asked =~= pre.asked + graph_model::report_asks(
                    outs,
                    drains,
                    paths,
                    mask,
                    n,
                    (k + 1) as nat,
                ));
                assert(report::detail_models(ds@) =~= told + added);
            }
            k = k + 1;
        }
        proof {
            let more = graph_model::report_asks(outs, drains, paths, mask, n, outs.len());
            lemma_report_asks(outs, drains, paths, mask, n, outs.len());
            incremental::lemma_ask(pre, more);
            assert(self@ =~= pre.ask(more));
        }
        Ok(ds)
    }

    /// Runs the nodes that a plan with details names, and reports them.
    fn run_plan_with_report(&mut self, ds: Vec<NodeRunDetail>) -> (res: Result<
        RunDetailReport,
        GraphError,
    >)
        requires
            old(self).wf(),
        ensures
            final(self).wf(),
            old(self)@.plan_ran(
                graph_model::detail_nodes(report::detail_models(ds@)),
                final(self)@,
                outcome(res),
            ),
            res matches Ok(r) ==> r.executed@ == ds@,
    {
        let ghost told = graph_model::detail_nodes(report::detail_models(ds@));
        let mut nodes: Vec<NodeId> = Vec::new();
        let mut i: usize = 0;
        while i < ds.len()
            invariant
                i <= ds@.len(),
                nodes@.len() == i,
                forall|k: int| 0 <= k < i ==> #[trigger] nodes@[k] == ds@[k].node,
            decreases ds@.len() - i,
        {
            nodes.push(ds[i].node);
            i = i + 1;
        }
        assert(nodes@ =~= told);
        match self.run_plan(&nodes) {
            Ok(_) => Ok(RunDetailReport { executed: ds }),
            Err(e) => Err(e),
        }
    }

    /// Runs all affected nodes, each behind what it depends on as the engine tells, up to the first
    /// that fails.
    pub fn run_all(&mut self) -> (res: Result<RunSummary, GraphError>)
        requires
            old(self).wf(),
        ensures
            final(self).wf(),
            exists|nodes: Seq<NodeId>, mid: GraphView| #[trigger]
                old(self)@.planned_all(nodes, mid) && mid.plan_ran(
                    nodes,
                    final(self)@,
                    outcome(res),
                ) && (res matches Ok(s) ==> s.executed_nodes == nodes.len()),
    {
        let nodes = self.plan_all();
        self.run_plan(&nodes)
    }

    /// Runs all affected nodes, and reports what `detail_mask` asks for about each.
    pub fn run_all_with_report(&mut self, detail_mask: ReportDetailMask) -> (res: Result<
        RunDetailReport,
        GraphError,
    >)
        requires
            old(self).wf(),
        ensures
            final(self).wf(),
            exists|ds: Seq<crate::report::DetailModel>, mid: GraphView| #[trigger]
                old(self)@.reported_all(detail_mask, ds, mid) && mid.plan_ran(
                    graph_model::detail_nodes(ds),
                    final(self)@,
                    outcome(res),
                ) && (res matches Ok(r) ==> report::detail_models(r.executed@) == ds),
    {
        let ds = self.plan_all_report(detail_mask);
        self.run_plan_with_report(ds)
    }

    /// Runs the affected nodes within the dependencies of a node. Other affected nodes stay
    /// affected.
    pub fn run_node(&mut self, node: NodeId) -> (res: Result<RunSummary, GraphError>)
        requires
            old(self).wf(),
        ensures
            final(self).wf(),
            if old(self)@.has(node) {
                exists|nodes: Seq<NodeId>, mid: GraphView| #[trigger]
                    old(self)@.planned_within(node, nodes, mid) && mid.plan_ran(
                        nodes,
                        final(self)@,
                        outcome(res),
                    ) && (res matches Ok(s) ==> s.executed_nodes == nodes.len())
            } else {
                final(self)@ == old(self)@ && outcome(res) == Err::<(), GraphErrorModel>(
                    GraphErrorModel::BadNodeId,
                )
            },
    {
        match self.plan_within_dependencies_of(node) {
            Ok(nodes) => self.run_plan(&nodes),
            Err(e) => Err(e),
        }
    }

    /// Runs the affected nodes within the dependencies of a node, and reports what `detail_mask`
    /// asks for about each.
    pub fn run_node_with_report(&mut self, node: NodeId, detail_mask: ReportDetailMask) -> (res:
        Result<RunDetailReport, GraphError>)
        requires
            old(self).wf(),
        ensures
            final(self).wf(),
            if old(self)@.has(node) {
                exists|ds: Seq<crate::report::DetailModel>, mid: GraphView| #[trigger]
                    old(self)@.reported_within(node, detail_mask, ds, mid) && mid.plan_ran(
                        graph_model::detail_nodes(ds),
                        final(self)@,
                        outcome(res),
                    ) && (res matches Ok(r) ==> report::detail_models(r.executed@) == ds)
            } else {
                final(self)@ == old(self)@ && outcome(res) == Err::<(), GraphErrorModel>(
                    GraphErrorModel::BadNodeId,
                )
            },
    {
        match self.plan_within_dependencies_of_report(node, detail_mask) {
            Ok(ds) => self.run_plan_with_report(ds),
            Err(e) => Err(e),
        }
    }
}

/// The inputs of a node rest on the nodes alone.
proof fn lemma_inputs_of(v: GraphView, w: GraphView, node: NodeId)
    requires
        v.nodes == w.nodes,
    ensures
        v.inputs_of(node) == w.inputs_of(node),
{
    if v.has(node) {
        lemma_resolved(v, w, node, v.node(node).input_names.len());
    }
}

/// The first inputs of a node rest on the nodes alone.
proof fn lemma_resolved(v: GraphView, w: GraphView, node: NodeId, k: nat)
    requires
        v.nodes == w.nodes,
    ensures
        v.resolved(node, k) == w.resolved(node, k),
    decreases k,
{
    if k > 0 {
        lemma_resolved(v, w, node, (k - 1) as nat);
        assert(v.read_input(node, k - 1) == w.read_input(node, k - 1));
    }
}

/// What explains the first keys does not rest on the others.
proof fn lemma_explain_asks_prefix(
    ds: Seq<DrainedModel>,
    a: Seq<Option<Seq<KeyModel>>>,
    b: Seq<Option<Seq<KeyModel>>>,
    k: nat,
)
    requires
        k <= a.len(),
        k <= b.len(),
        forall|i: int| 0 <= i < k ==> #[trigger] a[i] == b[i],
    ensures
        graph_model::explain_asks(ds, a, k) == graph_model::explain_asks(ds, b, k),
    decreases k,
{
    if k > 0 {
        lemma_explain_asks_prefix(ds, a, b, (k - 1) as nat);
        assert(a[k - 1] == b[k - 1]);
    }
}

/// Explaining replaces no dependencies.
proof fn lemma_explain_asks(ds: Seq<DrainedModel>, paths: Seq<Option<Seq<KeyModel>>>, k: nat)
    ensures
        incremental::keeps_dependencies(graph_model::explain_asks(ds, paths, k)),
    decreases k,
{
    if k > 0 {
        lemma_explain_asks(ds, paths, (k - 1) as nat);
    }
}

/// Explaining replaces no dependencies.
proof fn lemma_path_asks(
    ds: Seq<DrainedModel>,
    paths: Seq<Option<Seq<KeyModel>>>,
    mask: ReportDetailMask,
)
    ensures
        incremental::keeps_dependencies(graph_model::path_asks(ds, paths, mask)),
{
    lemma_explain_asks(ds, paths, ds.len());
}

/// The keys of the first drains do not rest on the others.
proof fn lemma_all_drained_prefix(a: Seq<Seq<DrainedModel>>, b: Seq<Seq<DrainedModel>>, k: nat)
    requires
        k <= a.len(),
        k <= b.len(),
        forall|i: int| 0 <= i < k ==> #[trigger] a[i] == b[i],
    ensures
        graph_model::all_drained(a, k) == graph_model::all_drained(b, k),
    decreases k,
{
    if k > 0 {
        lemma_all_drained_prefix(a, b, (k - 1) as nat);
        assert(a[k - 1] == b[k - 1]);
    }
}

/// One more drain has the nodes run that its keys have run besides.
proof fn lemma_planned_more(
    a: Seq<Seq<DrainedModel>>,
    b: Seq<Seq<DrainedModel>>,
    n: nat,
    k: nat,
)
    requires
        a.len() == k,
        b.len() == k + 1,
        forall|i: int| 0 <= i < k ==> #[trigger] a[i] == b[i],
    ensures
        graph_model::all_drained(a, k) == graph_model::all_drained(b, k),
        plan::planned(graph_model::all_drained(b, k + 1), n) == plan::planned(
            graph_model::all_drained(a, k),
            n,
        ) + plan::nodes_of(
            plan::chosen(b[k as int], n, plan::planned(graph_model::all_drained(a, k), n)),
        ),
{
    lemma_all_drained_prefix(a, b, k);
    let first = graph_model::all_drained(a, k);
    let more = b[k as int];
    plan::lemma_chosen_concat(first, more, n, seq![]);
    let c = plan::chosen(first, n, seq![]);
    assert(Seq::<NodeId>::empty() + plan::nodes_of(c) =~= plan::nodes_of(c));
    let d = plan::chosen(more, n, plan::nodes_of(c));
    assert(plan::nodes_of(c + d) =~= plan::nodes_of(c) + plan::nodes_of(d));
}

/// What is asked to drain first does not rest on what comes later.
proof fn lemma_drain_asks_prefix(
    outs: Seq<DirtyKey>,
    a: Seq<Seq<DrainedModel>>,
    b: Seq<Seq<DrainedModel>>,
    k: nat,
)
    requires
        k <= a.len(),
        k <= b.len(),
        forall|i: int| 0 <= i < k ==> #[trigger] a[i] == b[i],
    ensures
        graph_model::drain_asks(outs, a, k) == graph_model::drain_asks(outs, b, k),
    decreases k,
{
    if k > 0 {
        lemma_drain_asks_prefix(outs, a, b, (k - 1) as nat);
        assert(a[k - 1] == b[k - 1]);
    }
}

/// Draining replaces no dependencies.
proof fn lemma_drain_asks(outs: Seq<DirtyKey>, drains: Seq<Seq<DrainedModel>>, k: nat)
    ensures
        incremental::keeps_dependencies(graph_model::drain_asks(outs, drains, k)),
    decreases k,
{
    if k > 0 {
        lemma_drain_asks(outs, drains, (k - 1) as nat);
    }
}

/// What is asked and told first in a report does not rest on what comes later.
proof fn lemma_report_prefix(
    outs: Seq<DirtyKey>,
    a: Seq<Seq<DrainedModel>>,
    b: Seq<Seq<DrainedModel>>,
    p: Seq<Seq<Option<Seq<KeyModel>>>>,
    q: Seq<Seq<Option<Seq<KeyModel>>>>,
    mask: ReportDetailMask,
    n: nat,
    k: nat,
)
    requires
        k <= a.len(),
        k <= b.len(),
        k <= p.len(),
        k <= q.len(),
        forall|i: int| 0 <= i < k ==> #[trigger] a[i] == b[i],
        forall|i: int| 0 <= i < k ==> #[trigger] p[i] == q[i],
    ensures
        graph_model::report_asks(outs, a, p, mask, n, k) == graph_model::report_asks(
            outs,
            b,
            q,
            mask,
            n,
            k,
        ),
        graph_model::report_details(a, p, mask, n, k) == graph_model::report_details(
            b,
            q,
            mask,
            n,
            k,
        ),
    decreases k,
{
    if k > 0 {
        lemma_report_prefix(outs, a, b, p, q, mask, n, (k - 1) as nat);
        lemma_all_drained_prefix(a, b, (k - 1) as nat);
        assert(a[k - 1] == b[k - 1]);
        assert(p[k - 1] == q[k - 1]);
        assert(graph_model::newly(a, n, k - 1) == graph_model::newly(b, n, k - 1));
    }
}

/// A report replaces no dependencies.
proof fn lemma_report_asks(
    outs: Seq<DirtyKey>,
    drains: Seq<Seq<DrainedModel>>,
    paths: Seq<Seq<Option<Seq<KeyModel>>>>,
    mask: ReportDetailMask,
    n: nat,
    k: nat,
)
    ensures
        incremental::keeps_dependencies(
            graph_model::report_asks(outs, drains, paths, mask, n, k),
        ),
    decreases k,
{
    if k > 0 {
        lemma_report_asks(outs, drains, paths, mask, n, (k - 1) as nat);
        lemma_path_asks(graph_model::newly(drains, n, k - 1), paths[k - 1], mask);
    }
}

/// Appends accesses to a log.
fn push_all(log: &mut AccessLog, more: &AccessLog)
    ensures
        final(log)@ == old(log)@ + more@,
{
    let ghost base = log@;
    let mut i: usize = 0;
    assert(log@ =~= base + more@.take(0));
    while i < more.len()
        invariant
            i <= more@.len(),
            log@ == base + more@.take(i as int),
        decreases more@.len() - i,
    {
        match more.get(i) {
            Some(a) => log.push(a.duplicate()),
            None => {},
        }
        i = i + 1;
        assert(log@ =~= base + more@.take(i as int));
    }
    assert(more@.take(i as int) =~= more@);
}

/// What is asked for the first keys does not rest on the others.
proof fn lemma_intern_asks_prefix(
    keys: Seq<KeyModel>,
    longer: Seq<KeyModel>,
    a: Seq<DirtyKey>,
    b: Seq<DirtyKey>,
    k: nat,
)
    requires
        k <= a.len(),
        k <= b.len(),
        k <= keys.len(),
        k <= longer.len(),
        forall|i: int| 0 <= i < k ==> #[trigger] a[i] == b[i],
        forall|i: int| 0 <= i < k ==> #[trigger] keys[i] == longer[i],
    ensures
        graph_model::intern_asks(keys, a, k) == graph_model::intern_asks(longer, b, k),
    decreases k,
{
    if k > 0 {
        lemma_intern_asks_prefix(keys, longer, a, b, (k - 1) as nat);
        assert(a[k - 1] == b[k - 1]);
        assert(keys[k - 1] == longer[k - 1]);
    }
}

/// Where an input cannot be read, the inputs cannot be resolved.
proof fn lemma_resolve_fails(v: GraphView, node: NodeId, k: nat, n: nat)
    requires
        k <= n,
        v.resolved(node, k) is Err,
    ensures
        v.resolved(node, n) == v.resolved(node, k),
    decreases n,
{
    if k < n {
        lemma_resolve_fails(v, node, k, (n - 1) as nat);
    }
}

/// Two names that are the same, where there are any: the first name that comes again later.
fn find_duplicate(names: &Vec<String>) -> (res: Option<usize>)
    ensures
        match (res, graph_model::first_duplicate(name_models(names@))) {
            (Some(i), Some(k)) => i == k && i < names@.len(),
            (None, None) => true,
            _ => false,
        },
{
    let ghost ns = name_models(names@);
    let mut i: usize = 0;
    while i < names.len()
        invariant
            i <= names@.len(),
            ns == name_models(names@),
            forall|k: int| 0 <= k < i ==> !graph_model::comes_again(ns, k),
        decreases names@.len() - i,
    {
        let mut j: usize = i + 1;
        while j < names.len()
            invariant
                i < j <= names@.len(),
                ns == name_models(names@),
                forall|k: int| 0 <= k < i ==> !graph_model::comes_again(ns, k),
                forall|m: int| i < m < j ==> ns[i as int] != #[trigger] ns[m],
            decreases names@.len() - j,
        {
            if str_eq(names[i].as_str(), names[j].as_str()) {
                proof {
                    assert(ns[i as int] == ns[j as int]);
                    assert(graph_model::comes_again(ns, i as int));
                    graph_model::lemma_first_duplicate(ns, i as int);
                }
                return Some(i);
            }
            j = j + 1;
        }
        i = i + 1;
    }
    None
}

/// What is asked for the first outputs does not rest on the others.
proof fn lemma_output_asks_prefix(
    node: NodeId,
    names: Seq<Seq<char>>,
    a: Seq<DirtyKey>,
    b: Seq<DirtyKey>,
    k: nat,
)
    requires
        k <= a.len(),
        k <= b.len(),
        forall|i: int| 0 <= i < k ==> #[trigger] a[i] == b[i],
    ensures
        graph_model::output_asks(node, names, a, k) == graph_model::output_asks(node, names, b, k),
    decreases k,
{
    if k > 0 {
        lemma_output_asks_prefix(node, names, a, b, (k - 1) as nat);
        assert(a[k - 1] == b[k - 1]);
    }
}

} // verus!
