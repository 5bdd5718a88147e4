//! What graphs ask of the engine that tracks dirty keys, and what they make of its answers.

use std::cell::RefCell;
use std::collections::VecDeque;
use std::rc::Rc;
use std::sync::Arc;

use execution_tape::access::{Access, HostOpId, NodeId, ResourceKey};
use execution_tape::assembler::Asm;
use execution_tape::builder::{FunctionSig, ProgramBuilder};
use execution_tape::dirty::{canonical_keys, DirtyEngine, DirtyKey, Drained};
use execution_tape::graph::{ExecutionGraph, GraphError, NativeNodeFn};
use execution_tape::host::{
    AccessSink, Host, HostError, HostSig, NoAccess, ResourceKeyRef, SigHash, ValueRef,
};
use execution_tape::ieee::{FloatOp, FloatUnit};
use execution_tape::keys::KeyTable;
use execution_tape::machine::Limits;
use execution_tape::names::NameMap;
use execution_tape::plan::Scratch;
use execution_tape::program::ValueType;
use execution_tape::strict::Recorded;
use execution_tape::report::{ReportDetailMask, RunSummary};
use execution_tape::value::{FuncId, Value};
use execution_tape::verify::VerifiedProgram;

struct NoFloats;

impl FloatUnit for NoFloats {
    fn compute(&mut self, _op: FloatOp, _a: u64, _b: u64) -> u64 {
        0
    }
}

/// An engine that writes down what it is asked and answers from a script.
#[derive(Default)]
struct Script {
    keys: Vec<ResourceKey>,
    asked: Rc<RefCell<Vec<String>>>,
    drains: Rc<RefCell<VecDeque<Vec<DirtyKey>>>>,
}

impl Script {
    fn note(&self, what: String) {
        self.asked.borrow_mut().push(what);
    }

    fn reply(&self) -> Vec<Drained> {
        let ids = self.drains.borrow_mut().pop_front().unwrap_or_default();
        ids.into_iter()
            .map(|id| Drained { id, key: self.keys[id.0 as usize].clone() })
            .collect()
    }
}

impl DirtyEngine for Script {
    fn intern(&mut self, key: &ResourceKey) -> DirtyKey {
        let id = match self.keys.iter().position(|k| k == key) {
            Some(i) => i,
            None => {
                self.keys.push(key.clone());
                self.keys.len() - 1
            }
        };
        DirtyKey(id as u64)
    }

    fn mark_dirty(&mut self, key: DirtyKey) {
        self.note(format!("dirty {}", key.0));
    }

    fn add_dependency(&mut self, key: DirtyKey, on: DirtyKey) {
        self.note(format!("{} on {}", key.0, on.0));
    }

    fn set_dependencies(&mut self, key: DirtyKey, on: &[DirtyKey]) {
        let on: Vec<u64> = on.iter().map(|d| d.0).collect();
        self.note(format!("{} only on {on:?}", key.0));
    }

    fn drain(&mut self) -> Vec<Drained> {
        self.note("drain".to_string());
        self.reply()
    }

    fn drain_within_dependencies_of(&mut self, key: DirtyKey) -> Vec<Drained> {
        self.note(format!("drain within {}", key.0));
        self.reply()
    }

    fn drain_traced(&mut self) -> Vec<Drained> {
        self.note("drain traced".to_string());
        self.reply()
    }

    fn drain_within_dependencies_of_traced(&mut self, key: DirtyKey) -> Vec<Drained> {
        self.note(format!("drain traced within {}", key.0));
        self.reply()
    }

    fn explain_path(&mut self, key: DirtyKey) -> Option<Vec<ResourceKey>> {
        self.note(format!("explain {}", key.0));
        Some(vec![ResourceKey::input("why"), self.keys[key.0 as usize].clone()])
    }
}

/// A host that reads one key, or none.
struct Reads(Option<u64>);

impl Host for Reads {
    fn call(
        &mut self,
        _symbol: &str,
        _sig_hash: SigHash,
        _args: &[ValueRef<'_>],
    ) -> Result<(Vec<Value>, u64), HostError> {
        Ok((vec![], 0))
    }

    fn call_with_access(
        &mut self,
        symbol: &str,
        sig_hash: SigHash,
        args: &[ValueRef<'_>],
        access: Option<&mut Recorded<NoAccess>>,
    ) -> Result<(Vec<Value>, u64), HostError> {
        if let (Some(key), Some(access)) = (self.0, access) {
            access.read(ResourceKeyRef::HostState { op: sig_hash, key });
        }
        self.call(symbol, sig_hash, args)
    }
}

/// Adds its arguments up.
struct Sum;

impl NativeNodeFn for Sum {
    fn call(&mut self, args: &[Value], _access: &mut Recorded<NoAccess>) -> Result<Vec<Value>, GraphError> {
        let mut sum = 0i64;
        for a in args {
            match a {
                Value::I64(v) => sum += v,
                _ => return Err(GraphError::Trap),
            }
        }
        Ok(vec![Value::I64(sum)])
    }
}

struct Setup {
    graph: ExecutionGraph<Reads, NoFloats, Script>,
    asked: Rc<RefCell<Vec<String>>>,
    drains: Rc<RefCell<VecDeque<Vec<DirtyKey>>>>,
}

fn setup(host: Reads) -> Setup {
    let engine = Script::default();
    let asked = engine.asked.clone();
    let drains = engine.drains.clone();
    Setup { graph: ExecutionGraph::new(host, NoFloats, engine, Limits::default()), asked, drains }
}

impl Setup {
    fn sum_node(&mut self, ins: &[&str]) -> NodeId {
        let ins = ins.iter().map(|s| s.to_string()).collect();
        self.graph.add_native_node("sum", ins, vec!["out".to_string()], Box::new(Sum)).unwrap()
    }

    fn log(&self) -> Vec<String> {
        std::mem::take(&mut *self.asked.borrow_mut())
    }

    fn will_drain(&self, ids: &[u64]) {
        self.drains.borrow_mut().push_back(ids.iter().map(|i| DirtyKey(*i)).collect());
    }
}

/// A program whose one function calls the host `calls` times.
fn calling(calls: usize) -> (Arc<VerifiedProgram>, FuncId, SigHash) {
    let mut pb = ProgramBuilder::new();
    let sig = HostSig { args: vec![], rets: vec![] };
    let hash = execution_tape::host::sig_hash(&sig);
    let hs = pb.host_sig_for("poke", sig);
    let mut a = Asm::new();
    for _ in 0..calls {
        a.host_call(0, hs, 0, &[], &[]);
    }
    a.const_i64(1, 5);
    a.ret(0, &[1]);
    let f = pb
        .push_function_checked(
            a,
            FunctionSig { arg_types: vec![], ret_types: vec![ValueType::I64], reg_count: 2 },
        )
        .unwrap();
    pb.set_function_output_name(f, 0, "out").unwrap();
    (Arc::new(pb.build_verified().unwrap()), f, hash)
}

#[test]
fn wiring_a_graph_tells_the_engine() {
    let mut s = setup(Reads(None));
    let a = s.sum_node(&["x"]);
    let b = s.sum_node(&["y"]);
    assert_eq!((a, b), (NodeId(0), NodeId(1)));
    assert_eq!(s.graph.node_count(), 2);
    // Outputs are numbered 0 and 1, the input 2.
    assert_eq!(s.log(), ["dirty 0", "dirty 1"]);
    s.graph.set_input_value(a, "x", Value::I64(1));
    assert!(s.log().is_empty());
    s.graph.connect(a, "out", b, "y");
    assert_eq!(s.log(), ["1 on 0", "dirty 1"]);
    // Names and nodes that are not there change nothing.
    s.graph.set_input_value(a, "nope", Value::I64(1));
    s.graph.set_input_value(NodeId(9), "x", Value::I64(1));
    s.graph.connect(a, "out", NodeId(9), "y");
    assert!(s.log().is_empty());
    assert_eq!(s.graph.node_count(), 2);
}

#[test]
fn runs_follow_the_engine() {
    let mut s = setup(Reads(None));
    let a = s.sum_node(&["x", "y"]);
    let b = s.sum_node(&["z"]);
    s.graph.set_input_value(a, "x", Value::I64(1));
    s.graph.set_input_value(a, "y", Value::I64(2));
    s.graph.connect(a, "out", b, "z");
    s.log();
    // Keys of inputs, and keys seen before, plan nothing.
    s.will_drain(&[2, 0, 1, 0]);
    assert_eq!(s.graph.run_all(), Ok(RunSummary { executed_nodes: 2 }));
    assert_eq!(s.log(), ["drain", "0 only on [2, 3]", "1 only on [0]"]);
    assert_eq!(s.graph.node_outputs(b).unwrap().get("out"), Some(&Value::I64(3)));
    assert_eq!(s.graph.node_last_read_ids(a), Some(&[DirtyKey(2), DirtyKey(3)][..]));
    // Every run replaces what the outputs depend on.
    s.will_drain(&[0]);
    assert_eq!(s.graph.run_all(), Ok(RunSummary { executed_nodes: 1 }));
    assert_eq!(s.log(), ["drain", "0 only on [2, 3]"]);
    assert_eq!(s.graph.node_run_count(a), Some(2));
    assert_eq!(s.graph.node_run_count(b), Some(1));
    // Nothing affected, nothing run.
    assert_eq!(s.graph.run_all(), Ok(RunSummary { executed_nodes: 0 }));
    assert_eq!(s.log(), ["drain"]);
    assert_eq!(s.graph.node_run_count(a), Some(2));
}

#[test]
fn one_node_runs_within_its_dependencies() {
    let mut s = setup(Reads(None));
    let a = s.sum_node(&["x"]);
    s.graph.set_input_value(a, "x", Value::I64(4));
    s.log();
    s.will_drain(&[1, 0]);
    assert_eq!(s.graph.run_node(a), Ok(RunSummary { executed_nodes: 1 }));
    assert_eq!(s.log(), ["drain within 0", "0 only on [1]"]);
    assert_eq!(s.graph.run_node(NodeId(1)), Err(GraphError::BadNodeId));
    assert!(s.log().is_empty());
}

#[test]
fn reports_hold_what_is_asked_for() {
    let cases = [
        (ReportDetailMask::NONE, false, false),
        (ReportDetailMask::BECAUSE_OF, true, false),
        (ReportDetailMask::WHY_PATH, true, true),
        (ReportDetailMask::FULL, true, true),
    ];
    for (mask, because, why) in cases {
        let mut s = setup(Reads(None));
        let a = s.sum_node(&["x"]);
        s.graph.set_input_value(a, "x", Value::I64(4));
        let out = ResourceKey::node_output(a, "out");
        for whole in [true, false] {
            s.log();
            s.will_drain(&[1, 0]);
            let report = if whole {
                s.graph.run_all_with_report(mask).unwrap()
            } else {
                s.graph.run_node_with_report(a, mask).unwrap()
            };
            assert_eq!(report.executed.len(), 1);
            let d = &report.executed[0];
            assert_eq!(d.node, a);
            assert_eq!(d.because_of.is_some(), because);
            assert_eq!(
                d.why_path,
                if why { Some(vec![ResourceKey::input("why"), out.clone()]) } else { None }
            );
            assert_eq!(s.log().contains(&"explain 0".to_string()), why);
        }
    }
}

#[test]
fn masks_contain_masks() {
    assert!(ReportDetailMask::FULL.contains(ReportDetailMask::BECAUSE_OF));
    assert!(ReportDetailMask::FULL.contains(ReportDetailMask::WHY_PATH));
    assert!(ReportDetailMask::WHY_PATH.contains(ReportDetailMask::NONE));
    assert!(ReportDetailMask::WHY_PATH.contains(ReportDetailMask::WHY_PATH));
    assert!(!ReportDetailMask::WHY_PATH.contains(ReportDetailMask::BECAUSE_OF));
    assert!(!ReportDetailMask::BECAUSE_OF.contains(ReportDetailMask::FULL));
    assert!(!ReportDetailMask::NONE.contains(ReportDetailMask::WHY_PATH));
}

#[test]
fn strict_graphs_accept_calls_that_tell() {
    let (p, f, hash) = calling(2);
    let mut s = setup(Reads(Some(7)));
    s.graph.set_strict_deps(true);
    s.graph.set_collect_access_log(true);
    let n = s.graph.add_node(p, f, vec![]);
    s.log();
    s.will_drain(&[0]);
    assert_eq!(s.graph.run_all(), Ok(RunSummary { executed_nodes: 1 }));
    assert_eq!(s.log(), ["drain", "0 only on [1]"]);
    let log = s.graph.node_last_access(n).unwrap();
    let key = ResourceKey::host_state(HostOpId::new(hash.0), 7);
    let out = ResourceKey::node_output(n, "out");
    let got: Vec<Access> = (0..log.len()).map(|i| log.get(i).unwrap().clone()).collect();
    assert_eq!(
        got,
        [Access::Read(key.clone()), Access::Read(key), Access::Write(out)]
    );
}

#[test]
fn strict_graphs_name_the_silent_call() {
    let (p, f, hash) = calling(1);
    let mut s = setup(Reads(None));
    s.graph.set_strict_deps(true);
    let n = s.graph.add_node(p.clone(), f, vec![]);
    s.will_drain(&[0]);
    let e = s.graph.run_all().unwrap_err();
    assert_eq!(
        e,
        GraphError::StrictDepsViolation { node: n, symbol: "poke".to_string(), sig_hash: hash }
    );
    assert_eq!(
        e.message(),
        format!("strict deps violation: node=0 host_call=poke sig_hash={}", hash.0)
    );
    // The run left no mark on the node.
    assert_eq!(s.graph.node_run_count(n), Some(0));
    // A graph that is not strict lets the call pass.
    s.graph.set_strict_deps(false);
    s.will_drain(&[0]);
    assert_eq!(s.graph.run_all(), Ok(RunSummary { executed_nodes: 1 }));
}

#[test]
fn failures_are_named() {
    let node = NodeId::new(3);
    let name = "x".to_string();
    assert_eq!(GraphError::BadNodeId.message(), "bad node id");
    assert_eq!(
        GraphError::MissingInput { node, name: name.clone() }.message(),
        "missing input binding: node=3 name=x"
    );
    assert_eq!(
        GraphError::MissingUpstreamOutput { node, name: name.clone() }.message(),
        "missing upstream output: upstream_node=3 output=x"
    );
    assert_eq!(
        GraphError::BadOutputArity { node }.message(),
        "node produced unexpected output arity: node=3"
    );
    assert_eq!(GraphError::DuplicateOutputName { name }.message(), "duplicate output name: x");
    assert_eq!(GraphError::Trap.message(), "vm trapped during execution");
    assert_eq!(node.as_u64(), 3);
}

#[test]
fn failing_nodes_end_the_run() {
    let mut s = setup(Reads(None));
    let a = s.sum_node(&["x"]);
    let b = s.sum_node(&["y"]);
    s.graph.set_input_value(a, "x", Value::Unit);
    s.graph.set_input_value(b, "y", Value::I64(1));
    s.will_drain(&[0, 1]);
    assert_eq!(s.graph.run_all(), Err(GraphError::Trap));
    assert_eq!(s.graph.node_run_count(a), Some(0));
    assert_eq!(s.graph.node_run_count(b), Some(0));
    // An upstream node that is not there.
    let c = s.sum_node(&["z"]);
    s.graph.connect(NodeId(77), "out", c, "z");
    s.will_drain(&[4]);
    assert!(s.graph.run_all().is_err());
}

#[test]
fn traps_end_the_run() {
    let mut pb = ProgramBuilder::new();
    let mut a = Asm::new();
    a.trap(1);
    let f = pb
        .push_function_checked(
            a,
            FunctionSig { arg_types: vec![], ret_types: vec![ValueType::I64], reg_count: 2 },
        )
        .unwrap();
    pb.set_function_output_name(f, 0, "out").unwrap();
    let mut s = setup(Reads(None));
    let n = s.graph.add_node(Arc::new(pb.build_verified().unwrap()), f, vec![]);
    s.will_drain(&[0]);
    assert_eq!(s.graph.run_all(), Err(GraphError::Trap));
    assert_eq!(s.graph.node_run_count(n), Some(0));
}

#[test]
fn inputs_are_resolved_in_order() {
    let mut s = setup(Reads(None));
    let a = s.sum_node(&["x", "y"]);
    s.graph.set_input_value(a, "y", Value::I64(2));
    assert_eq!(
        s.graph.resolve_inputs(a).err(),
        Some(GraphError::MissingInput { node: a, name: "x".to_string() })
    );
    s.graph.set_input_value(a, "x", Value::I64(1));
    let ins = s.graph.resolve_inputs(a).unwrap();
    assert_eq!(ins.args, [Value::I64(1), Value::I64(2)]);
    assert_eq!(s.graph.resolve_inputs(NodeId(1)).err(), Some(GraphError::BadNodeId));
}

#[test]
fn keys_are_invalidated_by_name() {
    let mut s = setup(Reads(None));
    let a = s.sum_node(&["x"]);
    s.graph.set_input_value(a, "x", Value::I64(1));
    s.log();
    s.graph.invalidate_input("x");
    s.graph.invalidate(ResourceKey::input("x"));
    s.graph.invalidate_tape_key(ResourceKeyRef::Input("x"));
    s.graph.invalidate(ResourceKey::node_output(a, "out"));
    assert_eq!(s.log(), ["dirty 1", "dirty 1", "dirty 1", "dirty 0"]);
    s.graph.invalidate_tape_key(ResourceKeyRef::OpaqueHost { op: SigHash(4) });
    s.graph.invalidate(ResourceKey::opaque_host(HostOpId::new(4)));
    assert_eq!(s.log(), ["dirty 2", "dirty 2"]);
}

#[test]
fn graphs_are_drawn() {
    let mut s = setup(Reads(None));
    let a = s.sum_node(&["x|y", "u"]);
    let b = s.graph
        .add_native_node("s\"k", vec!["i".to_string()], vec![], Box::new(Sum))
        .unwrap();
    s.graph.set_input_value(a, "x|y", Value::I64(1));
    s.graph.connect(a, "out", b, "i");
    let dot = s.graph.to_dot();
    assert!(dot.contains(
        "label=\"{ { <in0> x\\|y (external) | <in1> u (unbound) } | node#0 (sum)\\n[native] | { <out0> out } }\""
    ), "{dot}");
    assert!(dot.contains(
        "label=\"{ { <in0> i \\<- 0.out } | node#1 (s\\\"k)\\n[native] }\""
    ), "{dot}");
    assert!(dot.contains("n0:out0"), "{dot}");
    assert!(dot.contains("n1:in0"), "{dot}");
}

#[test]
fn names_keep_the_order_of_their_bytes() {
    let mut m: NameMap<u32> = NameMap::new();
    assert!(m.is_empty());
    for (i, n) in ["b", "é", "a", "ab", "", "z"].iter().enumerate() {
        m.insert(n.to_string(), i as u32);
    }
    m.insert("a".to_string(), 20);
    let names: Vec<&str> = (0..m.len()).map(|i| m.name_at(i).unwrap()).collect();
    assert_eq!(names, ["", "a", "ab", "b", "z", "é"]);
    assert_eq!(m.get("a"), Some(&20));
    assert_eq!(m.get("é"), Some(&1));
    assert_eq!(m.get("c"), None);
    assert_eq!(m.name_at(6), None);
}

#[test]
fn reads_have_one_order() {
    let ids = |v: &[u64]| -> Vec<DirtyKey> { v.iter().map(|i| DirtyKey(*i)).collect() };
    assert_eq!(canonical_keys(&ids(&[5, 1, 5, 3])), ids(&[1, 3, 5]));
    assert_eq!(canonical_keys(&ids(&[3, 5, 1, 1])), ids(&[1, 3, 5]));
    assert_eq!(canonical_keys(&ids(&[])), ids(&[]));
}

#[test]
fn plans_hold_each_node_once() {
    let mut s = Scratch::new();
    let out = |n: u64| Drained { id: DirtyKey(n), key: ResourceKey::node_output(NodeId(n), "o") };
    for _ in 0..2 {
        s.start_drain(3);
        let picked = s.schedule(vec![
            out(2),
            Drained { id: DirtyKey(9), key: ResourceKey::input("x") },
            out(0),
            out(2),
            out(7),
        ]);
        assert_eq!(picked.len(), 2);
        assert_eq!(s.take_nodes(), [NodeId(2), NodeId(0)]);
        assert_eq!(s.take_nodes(), []);
    }
    // Room that was there before stays.
    s.start_drain(1);
    assert!(s.take_node(NodeId(2)));
    assert!(!s.take_node(NodeId(3)));
}

#[test]
fn host_reads_become_dependencies() {
    let (p, f, hash) = calling(1);
    let mut s = setup(Reads(Some(7)));
    let n = s.graph.add_node(p, f, vec![]);
    s.will_drain(&[0]);
    s.graph.run_all().unwrap();
    s.log();
    assert_eq!(s.graph.node_last_read_ids(n), Some(&[DirtyKey(1)][..]));
    s.graph.invalidate(ResourceKey::host_state(HostOpId::new(hash.0), 7));
    assert_eq!(s.log(), ["dirty 1"]);
}

/// Reads a key and gives back what it was called with.
struct Echo;

impl NativeNodeFn for Echo {
    fn call(&mut self, args: &[Value], access: &mut Recorded<NoAccess>) -> Result<Vec<Value>, GraphError> {
        access.read(ResourceKeyRef::OpaqueHost { op: SigHash(5) });
        Ok(args.to_vec())
    }
}

#[test]
fn callbacks_give_outputs_and_reads() {
    let mut s = setup(Reads(None));
    let names = vec!["a".to_string(), "b".to_string()];
    let n = s.graph.add_native_node("echo", names.clone(), names, Box::new(Echo)).unwrap();
    s.graph.set_input_value(n, "a", Value::I64(1));
    s.graph.set_input_value(n, "b", Value::Bool(true));
    s.log();
    s.will_drain(&[0]);
    s.graph.run_all().unwrap();
    let outs = s.graph.node_outputs(n).unwrap();
    assert_eq!(outs.len(), 2);
    assert_eq!(outs.get("a"), Some(&Value::I64(1)));
    assert_eq!(outs.get("b"), Some(&Value::Bool(true)));
    assert_eq!(s.log(), ["drain", "0 only on [2, 3, 4]", "1 only on [2, 3, 4]"]);
}

#[test]
fn a_key_has_one_number() {
    let mut t = KeyTable::new();
    let keys = [
        ResourceKey::input("a"),
        ResourceKey::input("b"),
        ResourceKey::host_state(HostOpId::new(1), 2),
        ResourceKey::host_state(HostOpId::new(2), 1),
        ResourceKey::opaque_host(HostOpId::new(1)),
        ResourceKey::node_output(NodeId::new(1), "a"),
        ResourceKey::node_output(NodeId::new(1), "b"),
        ResourceKey::node_output(NodeId::new(2), "a"),
    ];
    for _ in 0..2 {
        for (i, k) in keys.iter().enumerate() {
            assert_eq!(t.intern(k), DirtyKey(i as u64));
            assert_eq!(t.key(DirtyKey(i as u64)), Some(k));
        }
    }
    assert_eq!(t.key(DirtyKey(8)), None);
    assert_eq!(t.key(DirtyKey(u64::MAX)), None);
}

/// Gives its own number.
struct Constant(i64);

impl NativeNodeFn for Constant {
    fn call(&mut self, _args: &[Value], _access: &mut Recorded<NoAccess>) -> Result<Vec<Value>, GraphError> {
        Ok(vec![Value::I64(self.0)])
    }
}

#[test]
fn each_node_calls_its_own_callback() {
    let mut s = setup(Reads(None));
    let nodes: Vec<NodeId> = (0..3)
        .map(|i| {
            let outs = vec!["out".to_string()];
            s.graph.add_native_node("constant", vec![], outs, Box::new(Constant(i * 10))).unwrap()
        })
        .collect();
    s.will_drain(&[2, 0, 1]);
    s.graph.run_all().unwrap();
    for (n, v) in nodes.iter().zip([0, 10, 20]) {
        assert_eq!(s.graph.node_outputs(*n).unwrap().get("out"), Some(&Value::I64(v)));
    }
}

#[test]
fn keys_in_order_have_inputs_computed_first() {
    let mut s = setup(Reads(None));
    let a = s.sum_node(&["x"]);
    let b = s.sum_node(&["x", "y"]);
    s.graph.set_input_value(a, "x", Value::I64(3));
    s.graph.set_input_value(b, "y", Value::I64(4));
    s.graph.connect(a, "out", b, "x");
    s.will_drain(&[0, 1]);
    assert_eq!(s.graph.run_node(b).unwrap().executed_nodes, 2);
    assert_eq!(s.graph.node_outputs(b).unwrap().get("out"), Some(&Value::I64(7)));
}

#[test]
fn a_new_plan_is_empty() {
    let mut s = Scratch::new();
    assert!(!s.take_node(NodeId::new(0)));
    s.start_drain(2);
    assert!(s.take_node(NodeId::new(1)));
    assert_eq!(s.take_nodes(), [NodeId::new(1)]);
    assert!(s.take_nodes().is_empty());
}
