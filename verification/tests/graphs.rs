//! Graphs of nodes.

use std::cell::RefCell;
use std::collections::{BTreeMap, BTreeSet};
use std::rc::Rc;
use std::sync::Arc;

use execution_tape::access::{HostOpId, NodeId, ResourceKey};
use execution_tape::assembler::Asm;
use execution_tape::builder::{FunctionSig, ProgramBuilder};
use execution_tape::dirty::{DirtyEngine, DirtyKey, Drained};
use execution_tape::graph::{ExecutionGraph, GraphError, NativeNodeFn};
use execution_tape::host::{
    sig_hash, AccessSink, Host, HostError, HostSig, NoAccess, ResourceKeyRef, SigHash, ValueRef,
};
use execution_tape::ieee::{FloatOp, FloatUnit};
use execution_tape::machine::Limits;
use execution_tape::program::ValueType;
use execution_tape::strict::Recorded;
use execution_tape::report::ReportDetailMask;
use execution_tape::value::{FuncId, Value};
use execution_tape::verify::VerifiedProgram;

/// The floating-point arithmetic of the machine.
struct NativeFloats;

impl FloatUnit for NativeFloats {
    fn compute(&mut self, op: FloatOp, a: u64, b: u64) -> u64 {
        let x = f64::from_bits(a);
        let y = f64::from_bits(b);
        let r: f64 = match op {
            FloatOp::Sum => x + y,
            FloatOp::Difference => x - y,
            FloatOp::Product => x * y,
            FloatOp::Quotient => x / y,
            FloatOp::Remainder => x % y,
            FloatOp::FromI64 => (a as i64) as f64,
            FloatOp::FromU64 => a as f64,
        };
        r.to_bits()
    }
}

/// An engine that marks a key and all that depends on it.
#[derive(Default)]
struct Marks {
    keys: Vec<ResourceKey>,
    deps: BTreeMap<u64, BTreeSet<u64>>,
    dirty: BTreeSet<u64>,
    parent: BTreeMap<u64, u64>,
    paths: BTreeMap<u64, Vec<ResourceKey>>,
}

impl Marks {
    fn spread(&mut self, root: u64) {
        self.parent.remove(&root);
        self.dirty.insert(root);
        let mut todo = vec![root];
        while let Some(k) = todo.pop() {
            let next: Vec<u64> = self
                .deps
                .iter()
                .filter(|(d, on)| on.contains(&k) && !self.dirty.contains(d))
                .map(|(d, _)| *d)
                .collect();
            for d in next {
                self.dirty.insert(d);
                self.parent.insert(d, k);
                todo.push(d);
            }
        }
    }

    fn closure(&self, key: u64) -> BTreeSet<u64> {
        let mut seen = BTreeSet::from([key]);
        let mut todo = vec![key];
        while let Some(k) = todo.pop() {
            for d in self.deps.get(&k).into_iter().flatten() {
                if seen.insert(*d) {
                    todo.push(*d);
                }
            }
        }
        seen
    }

    fn take(&mut self, which: BTreeSet<u64>, traced: bool) -> Vec<Drained> {
        if traced {
            self.paths.clear();
            for k in &which {
                let mut path = vec![self.keys[*k as usize].clone()];
                let mut at = *k;
                while let Some(p) = self.parent.get(&at) {
                    at = *p;
                    path.insert(0, self.keys[at as usize].clone());
                }
                self.paths.insert(*k, path);
            }
        }
        let mut left = which;
        let mut out = Vec::new();
        while !left.is_empty() {
            let ready = left.iter().copied().find(|k| {
                self.deps.get(k).into_iter().flatten().all(|d| d == k || !left.contains(d))
            });
            let k = ready.unwrap_or(*left.iter().next().unwrap());
            left.remove(&k);
            self.dirty.remove(&k);
            out.push(Drained { id: DirtyKey(k), key: self.keys[k as usize].clone() });
        }
        out
    }
}

impl DirtyEngine for Marks {
    fn intern(&mut self, key: &ResourceKey) -> DirtyKey {
        match self.keys.iter().position(|k| k == key) {
            Some(i) => DirtyKey(i as u64),
            None => {
                self.keys.push(key.clone());
                DirtyKey(self.keys.len() as u64 - 1)
            }
        }
    }

    fn mark_dirty(&mut self, key: DirtyKey) {
        self.spread(key.0);
    }

    fn add_dependency(&mut self, key: DirtyKey, on: DirtyKey) {
        self.deps.entry(key.0).or_default().insert(on.0);
    }

    fn set_dependencies(&mut self, key: DirtyKey, on: &[DirtyKey]) {
        self.deps.insert(key.0, on.iter().map(|d| d.0).collect());
    }

    fn drain(&mut self) -> Vec<Drained> {
        self.take(self.dirty.clone(), false)
    }

    fn drain_within_dependencies_of(&mut self, key: DirtyKey) -> Vec<Drained> {
        let within = self.closure(key.0);
        self.take(self.dirty.intersection(&within).copied().collect(), false)
    }

    fn drain_traced(&mut self) -> Vec<Drained> {
        self.take(self.dirty.clone(), true)
    }

    fn drain_within_dependencies_of_traced(&mut self, key: DirtyKey) -> Vec<Drained> {
        let within = self.closure(key.0);
        self.take(self.dirty.intersection(&within).copied().collect(), true)
    }

    fn explain_path(&mut self, key: DirtyKey) -> Option<Vec<ResourceKey>> {
        self.paths.get(&key.0).cloned()
    }
}

fn new_graph<H: Host>(host: H) -> ExecutionGraph<H, NativeFloats, Marks> {
    ExecutionGraph::new(host, NativeFloats, Marks::default(), Limits::default())
}

#[derive(Debug, Default)]
struct HostNoop;

impl Host for HostNoop {
    fn call(
        &mut self,
        _symbol: &str,
        _sig_hash: SigHash,
        _args: &[ValueRef<'_>],
    ) -> Result<(Vec<Value>, u64), HostError> {
        Err(HostError::UnknownSymbol)
    }
}

#[test]
fn rerun_without_invalidation_does_not_reexecute() {
    // Node A: returns constant 7 (named output "value").
    let mut pb = ProgramBuilder::new();
    let mut a = Asm::new();
    a.const_i64(1, 7);
    a.ret(0, &[1]);
    let a_node = pb
        .push_function_checked(
            a,
            FunctionSig {
                arg_types: vec![],
                ret_types: vec![ValueType::I64],
                reg_count: 2,
            },
        )
        .unwrap();
    pb.set_function_output_name(a_node, 0, "value").unwrap();

    let a_prog = Arc::new(pb.build_verified().unwrap());

    let mut g = new_graph(HostNoop);
    let na = g.add_node(a_prog, a_node, vec![]);
    g.run_all().unwrap();
    let first = g.node_run_count(na).unwrap();
    g.run_all().unwrap();
    let second = g.node_run_count(na).unwrap();
    assert_eq!(first, 1);
    assert_eq!(second, 1);
}

#[test]
fn run_node_leaves_unrelated_dirty_work_dirty() {
    fn make_identity_program(output_name: &str) -> (Arc<VerifiedProgram>, FuncId) {
        let mut pb = ProgramBuilder::new();
        let mut a = Asm::new();
        a.ret(0, &[1]);
        let f = pb
            .push_function_checked(
                a,
                FunctionSig {
                    arg_types: vec![ValueType::I64],
                    ret_types: vec![ValueType::I64],
                    reg_count: 2,
                },
            )
            .unwrap();
        pb.set_function_output_name(f, 0, output_name).unwrap();
        (Arc::new(pb.build_verified().unwrap()), f)
    }

    let mut g = new_graph(HostNoop);
    let (a_prog, a_entry) = make_identity_program("value");
    let (b_prog, b_entry) = make_identity_program("value");

    // Target chain: A -> B
    let na = g.add_node(a_prog, a_entry, vec!["a".into()]);
    let nb = g.add_node(b_prog, b_entry, vec!["b".into()]);
    g.set_input_value(na, "a", Value::I64(1));
    g.connect(na, "value", nb, "b");

    // Many unrelated chains: X_i -> Y_i
    let mut unrelated_leaves: Vec<NodeId> = Vec::new();
    for i in 0..32_u64 {
        let (x_prog, x_entry) = make_identity_program("value");
        let (y_prog, y_entry) = make_identity_program("value");
        let nx = g.add_node(x_prog, x_entry, vec!["x".into()]);
        let ny = g.add_node(y_prog, y_entry, vec!["y".into()]);
        g.set_input_value(
            nx,
            "x",
            Value::I64(10 + i64::try_from(i).unwrap_or(i64::MAX)),
        );
        g.connect(nx, "value", ny, "y");
        unrelated_leaves.push(ny);
    }

    g.run_all().unwrap();
    assert_eq!(g.node_run_count(nb), Some(1));
    for &ny in &unrelated_leaves {
        assert_eq!(g.node_run_count(ny), Some(1));
    }

    // Dirty target chain and all unrelated chains.
    g.set_input_value(na, "a", Value::I64(2));
    g.invalidate_input("a");

    // This invalidates the shared input key for all unrelated chains. The key property we
    // care about is that `run_node(nb)` must not drain or run unrelated dirty work.
    g.invalidate_input("x");

    // Run only the A->B closure; unrelated chains should remain dirty and not execute.
    g.run_node(nb).unwrap();
    assert_eq!(
        g.node_outputs(nb).unwrap().get("value"),
        Some(&Value::I64(2))
    );
    assert_eq!(g.node_run_count(nb), Some(2));
    for &ny in &unrelated_leaves {
        assert_eq!(g.node_run_count(ny), Some(1));
    }

    // Unrelated dirty work should still be present.
    g.run_all().unwrap();
    for &ny in &unrelated_leaves {
        assert_eq!(g.node_run_count(ny), Some(2));
    }
}

#[test]
fn run_node_with_report_includes_cause_paths() {
    fn make_identity_program(output_name: &str) -> (Arc<VerifiedProgram>, FuncId) {
        let mut pb = ProgramBuilder::new();
        let mut a = Asm::new();
        a.ret(0, &[1]);
        let f = pb
            .push_function_checked(
                a,
                FunctionSig {
                    arg_types: vec![ValueType::I64],
                    ret_types: vec![ValueType::I64],
                    reg_count: 2,
                },
            )
            .unwrap();
        pb.set_function_output_name(f, 0, output_name).unwrap();
        (Arc::new(pb.build_verified().unwrap()), f)
    }

    let mut g = new_graph(HostNoop);
    let (a_prog, a_entry) = make_identity_program("value");
    let (b_prog, b_entry) = make_identity_program("value");

    let na = g.add_node(a_prog, a_entry, vec!["a".into()]);
    let nb = g.add_node(b_prog, b_entry, vec!["b".into()]);
    g.set_input_value(na, "a", Value::I64(1));
    g.connect(na, "value", nb, "b");

    g.run_all().unwrap();

    g.set_input_value(na, "a", Value::I64(2));
    g.invalidate_input("a");

    let r = g.run_node_with_report(nb, ReportDetailMask::FULL).unwrap();
    assert_eq!(r.executed.len(), 2);
    assert_eq!(r.executed[0].node, na);
    assert_eq!(r.executed[1].node, nb);

    assert_eq!(
        r.executed[0]
            .why_path
            .as_ref()
            .expect("full report should include why_path")
            .first(),
        Some(&ResourceKey::input("a"))
    );
    assert_eq!(
        r.executed[0]
            .why_path
            .as_ref()
            .expect("full report should include why_path")
            .last(),
        Some(&ResourceKey::node_output(na, "value"))
    );

    assert_eq!(
        r.executed[1]
            .why_path
            .as_ref()
            .expect("full report should include why_path")
            .first(),
        Some(&ResourceKey::input("a"))
    );
    assert_eq!(
        r.executed[1]
            .why_path
            .as_ref()
            .expect("full report should include why_path")
            .last(),
        Some(&ResourceKey::node_output(nb, "value"))
    );
}

#[test]
fn run_all_counts_executed_nodes() {
    fn make_identity_program(output_name: &str) -> (Arc<VerifiedProgram>, FuncId) {
        let mut pb = ProgramBuilder::new();
        let mut a = Asm::new();
        a.ret(0, &[1]);
        let f = pb
            .push_function_checked(
                a,
                FunctionSig {
                    arg_types: vec![ValueType::I64],
                    ret_types: vec![ValueType::I64],
                    reg_count: 2,
                },
            )
            .unwrap();
        pb.set_function_output_name(f, 0, output_name).unwrap();
        (Arc::new(pb.build_verified().unwrap()), f)
    }

    let mut g = new_graph(HostNoop);
    let (a_prog, a_entry) = make_identity_program("value");
    let (b_prog, b_entry) = make_identity_program("value");

    let na = g.add_node(a_prog, a_entry, vec!["a".into()]);
    let nb = g.add_node(b_prog, b_entry, vec!["b".into()]);
    g.set_input_value(na, "a", Value::I64(1));
    g.connect(na, "value", nb, "b");

    let first = g.run_all().unwrap();
    assert_eq!(first.executed_nodes, 2);

    let second = g.run_all().unwrap();
    assert_eq!(second.executed_nodes, 0);
}

#[test]
fn run_node_with_report_can_skip_why_paths() {
    fn make_identity_program(output_name: &str) -> (Arc<VerifiedProgram>, FuncId) {
        let mut pb = ProgramBuilder::new();
        let mut a = Asm::new();
        a.ret(0, &[1]);
        let f = pb
            .push_function_checked(
                a,
                FunctionSig {
                    arg_types: vec![ValueType::I64],
                    ret_types: vec![ValueType::I64],
                    reg_count: 2,
                },
            )
            .unwrap();
        pb.set_function_output_name(f, 0, output_name).unwrap();
        (Arc::new(pb.build_verified().unwrap()), f)
    }

    let mut g = new_graph(HostNoop);
    let (a_prog, a_entry) = make_identity_program("value");
    let (b_prog, b_entry) = make_identity_program("value");

    let na = g.add_node(a_prog, a_entry, vec!["a".into()]);
    let nb = g.add_node(b_prog, b_entry, vec!["b".into()]);
    g.set_input_value(na, "a", Value::I64(1));
    g.connect(na, "value", nb, "b");

    g.run_all().unwrap();
    g.set_input_value(na, "a", Value::I64(2));
    g.invalidate_input("a");

    let minimal = g.run_node_with_report(nb, ReportDetailMask::NONE).unwrap();
    assert_eq!(minimal.executed.len(), 2);
    for e in &minimal.executed {
        assert!(e.because_of.is_none());
        assert!(e.why_path.is_none());
    }

    g.set_input_value(na, "a", Value::I64(3));
    g.invalidate_input("a");

    let because_only = g
        .run_node_with_report(nb, ReportDetailMask::BECAUSE_OF)
        .unwrap();
    assert_eq!(because_only.executed.len(), 2);
    for e in &because_only.executed {
        assert!(e.because_of.is_some());
        assert!(e.why_path.is_none());
    }
}

#[test]
fn strict_deps_rejects_host_calls_without_accesses() {
    #[derive(Debug, Default)]
    struct HostNoAccess;

    impl Host for HostNoAccess {
        fn call(
            &mut self,
            symbol: &str,
            _sig_hash: SigHash,
            _args: &[ValueRef<'_>],
        ) -> Result<(Vec<Value>, u64), HostError> {
            if symbol != "no_access" {
                return Err(HostError::UnknownSymbol);
            }
            Ok((vec![Value::I64(7)], 0))
        }
    }

    let mut pb = ProgramBuilder::new();
    let host_sig = pb.host_sig_for(
        "no_access",
        HostSig {
            args: vec![ValueType::I64],
            rets: vec![ValueType::I64],
        },
    );

    let mut a = Asm::new();
    a.const_i64(1, 42);
    a.host_call(0, host_sig, 0, &[1], &[2]);
    a.ret(0, &[2]);

    let f = pb
        .push_function_checked(
            a,
            FunctionSig {
                arg_types: vec![],
                ret_types: vec![ValueType::I64],
                reg_count: 3,
            },
        )
        .unwrap();
    pb.set_function_output_name(f, 0, "value").unwrap();

    let prog = Arc::new(pb.build_verified().unwrap());

    let mut g = new_graph(HostNoAccess);
    let n = g.add_node(prog, f, vec![]);
    g.set_strict_deps(true);

    assert_eq!(
        g.run_all(),
        Err(GraphError::StrictDepsViolation {
            node: n,
            symbol: "no_access".into(),
            sig_hash: sig_hash(&HostSig {
                args: vec![ValueType::I64],
                rets: vec![ValueType::I64],
            }),
        })
    );
}

#[test]
fn run_all_errors_on_missing_input_binding() {
    let mut pb = ProgramBuilder::new();
    let mut a = Asm::new();
    a.ret(0, &[1]);
    let f = pb
        .push_function_checked(
            a,
            FunctionSig {
                arg_types: vec![ValueType::I64],
                ret_types: vec![ValueType::I64],
                reg_count: 2,
            },
        )
        .unwrap();
    pb.set_function_output_name(f, 0, "value").unwrap();
    let prog = Arc::new(pb.build_verified().unwrap());

    let mut g = new_graph(HostNoop);
    let n = g.add_node(prog, f, vec!["in".into()]);

    assert_eq!(
        g.run_all(),
        Err(GraphError::MissingInput {
            node: n,
            name: "in".into()
        })
    );
}

#[test]
fn run_all_errors_on_missing_upstream_output() {
    fn make_const_program(output_name: &str, v: i64) -> (Arc<VerifiedProgram>, FuncId) {
        let mut pb = ProgramBuilder::new();
        let mut a = Asm::new();
        a.const_i64(1, v);
        a.ret(0, &[1]);
        let f = pb
            .push_function_checked(
                a,
                FunctionSig {
                    arg_types: vec![],
                    ret_types: vec![ValueType::I64],
                    reg_count: 2,
                },
            )
            .unwrap();
        pb.set_function_output_name(f, 0, output_name).unwrap();
        (Arc::new(pb.build_verified().unwrap()), f)
    }

    fn make_identity_program(output_name: &str) -> (Arc<VerifiedProgram>, FuncId) {
        let mut pb = ProgramBuilder::new();
        let mut a = Asm::new();
        a.ret(0, &[1]);
        let f = pb
            .push_function_checked(
                a,
                FunctionSig {
                    arg_types: vec![ValueType::I64],
                    ret_types: vec![ValueType::I64],
                    reg_count: 2,
                },
            )
            .unwrap();
        pb.set_function_output_name(f, 0, output_name).unwrap();
        (Arc::new(pb.build_verified().unwrap()), f)
    }

    let (a_prog, a_entry) = make_const_program("value", 7);
    let (b_prog, b_entry) = make_identity_program("value");

    let mut g = new_graph(HostNoop);
    let na = g.add_node(a_prog, a_entry, vec![]);
    let nb = g.add_node(b_prog, b_entry, vec!["x".into()]);

    // Wire a non-existent output name.
    g.connect(na, "does_not_exist", nb, "x");

    assert_eq!(
        g.run_all(),
        Err(GraphError::MissingUpstreamOutput {
            node: na,
            name: "does_not_exist".into()
        })
    );
}

#[test]
fn invalidating_host_state_reruns_dependent_nodes() {
    #[derive(Clone)]
    struct KvHost {
        kv: Rc<RefCell<BTreeMap<u64, i64>>>,
        get_sig: SigHash,
    }

    impl Host for KvHost {
        fn call(
            &mut self,
            symbol: &str,
            sig_hash: SigHash,
            args: &[ValueRef<'_>],
        ) -> Result<(Vec<Value>, u64), HostError> {
            self.call_with_access(symbol, sig_hash, args, None)
        }

        fn call_with_access(
            &mut self,
            symbol: &str,
            sig_hash: SigHash,
            args: &[ValueRef<'_>],
            access: Option<&mut Recorded<NoAccess>>,
        ) -> Result<(Vec<Value>, u64), HostError> {
            if symbol != "kv.get" {
                return Err(HostError::UnknownSymbol);
            }
            if sig_hash != self.get_sig {
                return Err(HostError::SignatureMismatch);
            }
            let [ValueRef::U64(key)] = args else {
                return Err(HostError::Failed);
            };
            if let Some(a) = access {
                a.read(ResourceKeyRef::HostState {
                    op: sig_hash,
                    key: *key,
                });
            }
            let v = *self.kv.borrow().get(key).unwrap_or(&0);
            Ok((vec![Value::I64(v)], 0))
        }
    }

    // Program: return kv.get(1)
    let get_sig = HostSig {
        args: vec![ValueType::U64],
        rets: vec![ValueType::I64],
    };
    let get_hash = sig_hash(&get_sig);

    let mut pb = ProgramBuilder::new();
    let get_host = pb.host_sig_for("kv.get", get_sig);

    let mut a = Asm::new();
    a.const_u64(1, 1);
    a.host_call(0, get_host, 0, &[1], &[2]);
    a.ret(0, &[2]);

    let f = pb
        .push_function_checked(
            a,
            FunctionSig {
                arg_types: vec![],
                ret_types: vec![ValueType::I64],
                reg_count: 3,
            },
        )
        .unwrap();
    pb.set_function_output_name(f, 0, "value").unwrap();
    let prog = Arc::new(pb.build_verified().unwrap());

    let kv = Rc::new(RefCell::new(BTreeMap::new()));
    kv.borrow_mut().insert(1, 7);
    let host = KvHost {
        kv: kv.clone(),
        get_sig: get_hash,
    };

    let mut g = new_graph(host);
    let n = g.add_node(prog, f, vec![]);

    g.run_all().unwrap();
    assert_eq!(
        g.node_outputs(n).unwrap().get("value"),
        Some(&Value::I64(7))
    );
    assert_eq!(g.node_run_count(n), Some(1));

    // No invalidation => no additional work.
    g.run_all().unwrap();
    assert_eq!(g.node_run_count(n), Some(1));

    // Mutate host state out-of-band and invalidate the corresponding key.
    kv.borrow_mut().insert(1, 8);
    g.invalidate(ResourceKey::host_state(HostOpId::new(get_hash.0), 1));
    g.run_all().unwrap();

    assert_eq!(
        g.node_outputs(n).unwrap().get("value"),
        Some(&Value::I64(8))
    );
    assert_eq!(g.node_run_count(n), Some(2));
}

#[test]
fn host_read_order_changes_do_not_change_last_read_ids() {
    #[derive(Clone)]
    struct FlippingReadHost {
        flip: Rc<RefCell<bool>>,
        op_sig: SigHash,
    }

    impl Host for FlippingReadHost {
        fn call(
            &mut self,
            symbol: &str,
            sig_hash: SigHash,
            args: &[ValueRef<'_>],
        ) -> Result<(Vec<Value>, u64), HostError> {
            self.call_with_access(symbol, sig_hash, args, None)
        }

        fn call_with_access(
            &mut self,
            symbol: &str,
            sig_hash: SigHash,
            _args: &[ValueRef<'_>],
            access: Option<&mut Recorded<NoAccess>>,
        ) -> Result<(Vec<Value>, u64), HostError> {
            if symbol != "flip.reads" {
                return Err(HostError::UnknownSymbol);
            }
            if sig_hash != self.op_sig {
                return Err(HostError::SignatureMismatch);
            }

            let mut flip = self.flip.borrow_mut();
            let (a, b) = if *flip {
                (2_u64, 1_u64)
            } else {
                (1_u64, 2_u64)
            };
            *flip = !*flip;

            if let Some(sink) = access {
                sink.read(ResourceKeyRef::HostState {
                    op: sig_hash,
                    key: a,
                });
                sink.read(ResourceKeyRef::HostState {
                    op: sig_hash,
                    key: b,
                });
            }
            Ok((vec![Value::I64(0)], 0))
        }
    }

    let host_sig = HostSig {
        args: vec![],
        rets: vec![ValueType::I64],
    };
    let op_hash = sig_hash(&host_sig);

    let mut pb = ProgramBuilder::new();
    let op = pb.host_sig_for("flip.reads", host_sig);
    let mut a = Asm::new();
    a.host_call(0, op, 0, &[], &[1]);
    a.ret(0, &[1]);
    let f = pb
        .push_function_checked(
            a,
            FunctionSig {
                arg_types: vec![],
                ret_types: vec![ValueType::I64],
                reg_count: 2,
            },
        )
        .unwrap();
    pb.set_function_output_name(f, 0, "value").unwrap();
    let prog = Arc::new(pb.build_verified().unwrap());

    let mut g = new_graph(FlippingReadHost {
        flip: Rc::new(RefCell::new(false)),
        op_sig: op_hash,
    });
    let n = g.add_node(prog, f, vec![]);

    g.run_all().unwrap();
    let first_ids = g.node_last_read_ids(n).unwrap().to_vec();

    g.invalidate(ResourceKey::host_state(HostOpId::new(op_hash.0), 1));
    g.run_all().unwrap();
    let second_ids = g.node_last_read_ids(n).unwrap().to_vec();

    assert_eq!(first_ids, second_ids);
}

#[test]
fn invalidating_opaque_host_reruns_dependent_nodes() {
    #[derive(Clone)]
    struct KvHost {
        kv: Rc<RefCell<BTreeMap<u64, i64>>>,
        get_sig: SigHash,
    }

    impl Host for KvHost {
        fn call(
            &mut self,
            symbol: &str,
            sig_hash: SigHash,
            args: &[ValueRef<'_>],
        ) -> Result<(Vec<Value>, u64), HostError> {
            self.call_with_access(symbol, sig_hash, args, None)
        }

        fn call_with_access(
            &mut self,
            symbol: &str,
            sig_hash: SigHash,
            args: &[ValueRef<'_>],
            access: Option<&mut Recorded<NoAccess>>,
        ) -> Result<(Vec<Value>, u64), HostError> {
            if symbol != "kv.get" {
                return Err(HostError::UnknownSymbol);
            }
            if sig_hash != self.get_sig {
                return Err(HostError::SignatureMismatch);
            }
            let [ValueRef::U64(key)] = args else {
                return Err(HostError::Failed);
            };
            if let Some(a) = access {
                a.read(ResourceKeyRef::OpaqueHost { op: sig_hash });
            }
            let v = *self.kv.borrow().get(key).unwrap_or(&0);
            Ok((vec![Value::I64(v)], 0))
        }
    }

    // Program: return kv.get(1)
    let get_sig = HostSig {
        args: vec![ValueType::U64],
        rets: vec![ValueType::I64],
    };
    let get_hash = sig_hash(&get_sig);

    let mut pb = ProgramBuilder::new();
    let get_host = pb.host_sig_for("kv.get", get_sig);

    let mut a = Asm::new();
    a.const_u64(1, 1);
    a.host_call(0, get_host, 0, &[1], &[2]);
    a.ret(0, &[2]);

    let f = pb
        .push_function_checked(
            a,
            FunctionSig {
                arg_types: vec![],
                ret_types: vec![ValueType::I64],
                reg_count: 3,
            },
        )
        .unwrap();
    pb.set_function_output_name(f, 0, "value").unwrap();
    let prog = Arc::new(pb.build_verified().unwrap());

    let kv = Rc::new(RefCell::new(BTreeMap::new()));
    kv.borrow_mut().insert(1, 7);
    let host = KvHost {
        kv: kv.clone(),
        get_sig: get_hash,
    };

    let mut g = new_graph(host);
    let n = g.add_node(prog, f, vec![]);

    g.run_all().unwrap();
    assert_eq!(
        g.node_outputs(n).unwrap().get("value"),
        Some(&Value::I64(7))
    );
    assert_eq!(g.node_run_count(n), Some(1));

    // Mutate host state out-of-band and invalidate the conservative opaque key.
    kv.borrow_mut().insert(1, 8);
    g.invalidate_tape_key(ResourceKeyRef::OpaqueHost { op: get_hash });
    g.run_all().unwrap();

    assert_eq!(
        g.node_outputs(n).unwrap().get("value"),
        Some(&Value::I64(8))
    );
    assert_eq!(g.node_run_count(n), Some(2));
}

#[test]
fn invalidating_an_input_reruns_transitive_dependents_only_when_needed() {
    fn make_identity_program(output_name: &str) -> (Arc<VerifiedProgram>, FuncId) {
        let mut pb = ProgramBuilder::new();
        let mut a = Asm::new();
        a.ret(0, &[1]);
        let f = pb
            .push_function_checked(
                a,
                FunctionSig {
                    arg_types: vec![ValueType::I64],
                    ret_types: vec![ValueType::I64],
                    reg_count: 2,
                },
            )
            .unwrap();
        pb.set_function_output_name(f, 0, output_name).unwrap();
        (Arc::new(pb.build_verified().unwrap()), f)
    }

    let (a_prog, a_entry) = make_identity_program("value");
    let (b_prog, b_entry) = make_identity_program("value");
    let (c_prog, c_entry) = make_identity_program("value");

    let mut g = new_graph(HostNoop);
    let na = g.add_node(a_prog, a_entry, vec!["in".into()]);
    let nb = g.add_node(b_prog, b_entry, vec!["x".into()]);
    let nc = g.add_node(c_prog, c_entry, vec!["y".into()]);

    g.set_input_value(na, "in", Value::I64(7));
    g.connect(na, "value", nb, "x");
    g.connect(nb, "value", nc, "y");

    g.run_all().unwrap();
    assert_eq!(
        g.node_outputs(nc).unwrap().get("value"),
        Some(&Value::I64(7))
    );
    assert_eq!(g.node_run_count(na), Some(1));
    assert_eq!(g.node_run_count(nb), Some(1));
    assert_eq!(g.node_run_count(nc), Some(1));

    // No invalidation => no additional work.
    g.run_all().unwrap();
    assert_eq!(g.node_run_count(na), Some(1));
    assert_eq!(g.node_run_count(nb), Some(1));
    assert_eq!(g.node_run_count(nc), Some(1));

    // Change the external input and invalidate its key.
    g.set_input_value(na, "in", Value::I64(8));
    g.invalidate_input("in");
    g.run_all().unwrap();

    assert_eq!(
        g.node_outputs(nc).unwrap().get("value"),
        Some(&Value::I64(8))
    );
    assert_eq!(g.node_run_count(na), Some(2));
    assert_eq!(g.node_run_count(nb), Some(2));
    assert_eq!(g.node_run_count(nc), Some(2));
}

#[test]
fn first_run_sync_clears_conservative_deps_for_zero_read_node() {
    fn make_identity_program(output_name: &str) -> (Arc<VerifiedProgram>, FuncId) {
        let mut pb = ProgramBuilder::new();
        let mut a = Asm::new();
        a.ret(0, &[1]);
        let f = pb
            .push_function_checked(
                a,
                FunctionSig {
                    arg_types: vec![ValueType::I64],
                    ret_types: vec![ValueType::I64],
                    reg_count: 2,
                },
            )
            .unwrap();
        pb.set_function_output_name(f, 0, output_name).unwrap();
        (Arc::new(pb.build_verified().unwrap()), f)
    }

    fn make_const_program(output_name: &str, v: i64) -> (Arc<VerifiedProgram>, FuncId) {
        let mut pb = ProgramBuilder::new();
        let mut a = Asm::new();
        a.const_i64(1, v);
        a.ret(0, &[1]);
        let f = pb
            .push_function_checked(
                a,
                FunctionSig {
                    arg_types: vec![],
                    ret_types: vec![ValueType::I64],
                    reg_count: 2,
                },
            )
            .unwrap();
        pb.set_function_output_name(f, 0, output_name).unwrap();
        (Arc::new(pb.build_verified().unwrap()), f)
    }

    let (a_prog, a_entry) = make_identity_program("value");
    let (b_prog, b_entry) = make_const_program("value", 9);

    let mut g = new_graph(HostNoop);
    let na = g.add_node(a_prog, a_entry, vec!["in".into()]);
    let nb = g.add_node(b_prog, b_entry, vec![]);

    // This creates conservative dirty edges from A -> B, but B has zero observed reads.
    g.connect(na, "value", nb, "not_an_input");
    g.set_input_value(na, "in", Value::I64(1));

    g.run_all().unwrap();
    assert_eq!(g.node_run_count(na), Some(1));
    assert_eq!(g.node_run_count(nb), Some(1));

    // If conservative deps were not replaced on first run, this would spuriously rerun B.
    g.set_input_value(na, "in", Value::I64(2));
    g.invalidate_input("in");
    g.run_all().unwrap();

    assert_eq!(g.node_run_count(na), Some(2));
    assert_eq!(g.node_run_count(nb), Some(1));
}

#[test]
fn run_node_errors_on_bad_node_id() {
    let mut g = new_graph(HostNoop);
    assert_eq!(g.run_node(NodeId::new(999)), Err(GraphError::BadNodeId));
}

#[test]
fn duplicate_input_names_alias_same_binding() {
    let mut pb = ProgramBuilder::new();
    let mut a = Asm::new();
    // Return arg1 where both args are named "x". If aliasing is broken, run fails with
    // MissingInput for the second slot.
    a.ret(0, &[1]);
    let f = pb
        .push_function_checked(
            a,
            FunctionSig {
                arg_types: vec![ValueType::I64, ValueType::I64],
                ret_types: vec![ValueType::I64],
                reg_count: 3,
            },
        )
        .unwrap();
    pb.set_function_output_name(f, 0, "value").unwrap();
    let prog = Arc::new(pb.build_verified().unwrap());

    let mut g = new_graph(HostNoop);
    let n = g.add_node(prog, f, vec!["x".into(), "x".into()]);
    g.set_input_value(n, "x", Value::I64(7));

    g.run_all().unwrap();
    assert_eq!(
        g.node_outputs(n).unwrap().get("value"),
        Some(&Value::I64(7))
    );
}

#[test]
fn node_last_access_returns_some_when_collection_enabled() {
    // A constant node with no inputs (zero reads, output writes only).
    // Nodes with zero outputs cannot be tested here because they have no dirty keys
    // and are never scheduled by plan_all.
    let mut pb = ProgramBuilder::new();
    let mut a = Asm::new();
    a.const_i64(1, 42);
    a.ret(0, &[1]);
    let f = pb
        .push_function_checked(
            a,
            FunctionSig {
                arg_types: vec![],
                ret_types: vec![ValueType::I64],
                reg_count: 2,
            },
        )
        .unwrap();
    pb.set_function_output_name(f, 0, "value").unwrap();
    let prog = Arc::new(pb.build_verified().unwrap());

    let mut g = new_graph(HostNoop);
    g.set_collect_access_log(true);
    let n = g.add_node(prog, f, vec![]);
    g.run_all().unwrap();

    let log = g.node_last_access(n);
    assert!(
        log.is_some(),
        "access log should be Some when collection is enabled"
    );
}

#[test]
fn node_last_access_returns_none_after_collection_disabled_rerun() {
    fn make_identity_program(output_name: &str) -> (Arc<VerifiedProgram>, FuncId) {
        let mut pb = ProgramBuilder::new();
        let mut a = Asm::new();
        a.ret(0, &[1]);
        let f = pb
            .push_function_checked(
                a,
                FunctionSig {
                    arg_types: vec![ValueType::I64],
                    ret_types: vec![ValueType::I64],
                    reg_count: 2,
                },
            )
            .unwrap();
        pb.set_function_output_name(f, 0, output_name).unwrap();
        (Arc::new(pb.build_verified().unwrap()), f)
    }

    let (prog, entry) = make_identity_program("value");
    let mut g = new_graph(HostNoop);
    let n = g.add_node(prog, entry, vec!["in".into()]);
    g.set_input_value(n, "in", Value::I64(1));

    // Run with collection enabled — should produce a log.
    g.set_collect_access_log(true);
    g.run_all().unwrap();
    assert!(g.node_last_access(n).is_some());

    // Disable collection, rerun — stale log must be cleared.
    g.set_collect_access_log(false);
    g.set_input_value(n, "in", Value::I64(2));
    g.invalidate_input("in");
    g.run_all().unwrap();
    assert!(
        g.node_last_access(n).is_none(),
        "stale access log should be cleared after rerun with collection disabled"
    );
}

#[test]
fn in_place_output_update_preserves_values_across_reruns() {
    fn make_identity_program(output_name: &str) -> (Arc<VerifiedProgram>, FuncId) {
        let mut pb = ProgramBuilder::new();
        let mut a = Asm::new();
        a.ret(0, &[1]);
        let f = pb
            .push_function_checked(
                a,
                FunctionSig {
                    arg_types: vec![ValueType::I64],
                    ret_types: vec![ValueType::I64],
                    reg_count: 2,
                },
            )
            .unwrap();
        pb.set_function_output_name(f, 0, output_name).unwrap();
        (Arc::new(pb.build_verified().unwrap()), f)
    }

    let (prog, entry) = make_identity_program("value");
    let mut g = new_graph(HostNoop);
    let n = g.add_node(prog, entry, vec!["in".into()]);

    // First run populates the output map.
    g.set_input_value(n, "in", Value::I64(10));
    g.run_all().unwrap();
    assert_eq!(
        g.node_outputs(n).unwrap().get("value"),
        Some(&Value::I64(10))
    );

    // Second run uses in-place update path.
    g.set_input_value(n, "in", Value::I64(20));
    g.invalidate_input("in");
    g.run_all().unwrap();
    assert_eq!(
        g.node_outputs(n).unwrap().get("value"),
        Some(&Value::I64(20))
    );

    // Third run confirms stability.
    g.set_input_value(n, "in", Value::I64(30));
    g.invalidate_input("in");
    g.run_all().unwrap();
    assert_eq!(
        g.node_outputs(n).unwrap().get("value"),
        Some(&Value::I64(30))
    );
    assert_eq!(g.node_run_count(n), Some(3));
}

// --- Native node tests ---

#[derive(Debug)]
struct SumCallback;

impl NativeNodeFn for SumCallback {
    fn call(
        &mut self,
        args: &[Value],
        _access: &mut Recorded<NoAccess>,
    ) -> Result<Vec<Value>, GraphError> {
        let mut sum: i64 = 0;
        for a in args {
            if let Value::I64(v) = a {
                sum += v;
            }
        }
        Ok(vec![Value::I64(sum)])
    }
}

#[test]
fn native_node_returns_outputs() {
    let mut g = new_graph(HostNoop);
    let n = g
        .add_native_node(
            "sum",
            vec!["a".into(), "b".into()],
            vec!["total".into()],
            Box::new(SumCallback),
        )
        .unwrap();
    g.set_input_value(n, "a", Value::I64(3));
    g.set_input_value(n, "b", Value::I64(4));
    g.run_all().unwrap();

    assert_eq!(
        g.node_outputs(n).unwrap().get("total"),
        Some(&Value::I64(7))
    );
    assert_eq!(g.node_run_count(n), Some(1));
}

#[test]
fn native_node_participates_in_dirty_tracking() {
    fn make_identity_program_local(output_name: &str) -> (Arc<VerifiedProgram>, FuncId) {
        let mut pb = ProgramBuilder::new();
        let mut a = Asm::new();
        a.ret(0, &[1]);
        let f = pb
            .push_function_checked(
                a,
                FunctionSig {
                    arg_types: vec![ValueType::I64],
                    ret_types: vec![ValueType::I64],
                    reg_count: 2,
                },
            )
            .unwrap();
        pb.set_function_output_name(f, 0, output_name).unwrap();
        (Arc::new(pb.build_verified().unwrap()), f)
    }

    let mut g = new_graph(HostNoop);

    // Tape node A (identity) -> Native node B (sum with itself = double)
    let (a_prog, a_entry) = make_identity_program_local("value");
    let na = g.add_node(a_prog, a_entry, vec!["in".into()]);
    let nb = g
        .add_native_node(
            "double",
            vec!["x".into(), "x".into()],
            vec!["out".into()],
            Box::new(SumCallback),
        )
        .unwrap();

    g.set_input_value(na, "in", Value::I64(5));
    g.connect(na, "value", nb, "x");

    g.run_all().unwrap();
    assert_eq!(
        g.node_outputs(nb).unwrap().get("out"),
        Some(&Value::I64(10))
    );
    assert_eq!(g.node_run_count(na), Some(1));
    assert_eq!(g.node_run_count(nb), Some(1));

    // No invalidation → no rerun.
    g.run_all().unwrap();
    assert_eq!(g.node_run_count(na), Some(1));
    assert_eq!(g.node_run_count(nb), Some(1));

    // Invalidate input → both rerun.
    g.set_input_value(na, "in", Value::I64(7));
    g.invalidate_input("in");
    g.run_all().unwrap();
    assert_eq!(
        g.node_outputs(nb).unwrap().get("out"),
        Some(&Value::I64(14))
    );
    assert_eq!(g.node_run_count(na), Some(2));
    assert_eq!(g.node_run_count(nb), Some(2));
}

#[test]
fn native_node_upstream_of_tape_node() {
    fn make_identity_program_local(output_name: &str) -> (Arc<VerifiedProgram>, FuncId) {
        let mut pb = ProgramBuilder::new();
        let mut a = Asm::new();
        a.ret(0, &[1]);
        let f = pb
            .push_function_checked(
                a,
                FunctionSig {
                    arg_types: vec![ValueType::I64],
                    ret_types: vec![ValueType::I64],
                    reg_count: 2,
                },
            )
            .unwrap();
        pb.set_function_output_name(f, 0, output_name).unwrap();
        (Arc::new(pb.build_verified().unwrap()), f)
    }

    let mut g = new_graph(HostNoop);

    // Native node A (sum) -> Tape node B (identity)
    let na = g
        .add_native_node(
            "sum",
            vec!["a".into(), "b".into()],
            vec!["total".into()],
            Box::new(SumCallback),
        )
        .unwrap();
    let (b_prog, b_entry) = make_identity_program_local("value");
    let nb = g.add_node(b_prog, b_entry, vec!["x".into()]);

    g.set_input_value(na, "a", Value::I64(10));
    g.set_input_value(na, "b", Value::I64(20));
    g.connect(na, "total", nb, "x");

    g.run_all().unwrap();
    assert_eq!(
        g.node_outputs(nb).unwrap().get("value"),
        Some(&Value::I64(30))
    );
}

#[test]
fn native_node_bad_output_arity() {
    #[derive(Debug)]
    struct TwoOutputs;

    impl NativeNodeFn for TwoOutputs {
        fn call(
            &mut self,
            _args: &[Value],
            _access: &mut Recorded<NoAccess>,
        ) -> Result<Vec<Value>, GraphError> {
            Ok(vec![Value::I64(1), Value::I64(2)])
        }
    }

    let mut g = new_graph(HostNoop);
    let n = g
        .add_native_node(
            "bad",
            vec![],
            vec!["only_one".into()], // declared 1, callback returns 2
            Box::new(TwoOutputs),
        )
        .unwrap();

    assert_eq!(g.run_all(), Err(GraphError::BadOutputArity { node: n }));
}

#[test]
fn native_node_stateful_callback() {
    #[derive(Debug)]
    struct Counter {
        count: i64,
    }

    impl NativeNodeFn for Counter {
        fn call(
            &mut self,
            _args: &[Value],
            _access: &mut Recorded<NoAccess>,
        ) -> Result<Vec<Value>, GraphError> {
            self.count += 1;
            Ok(vec![Value::I64(self.count)])
        }
    }

    let mut g = new_graph(HostNoop);
    let n = g
        .add_native_node(
            "counter",
            vec!["trigger".into()],
            vec!["count".into()],
            Box::new(Counter { count: 0 }),
        )
        .unwrap();
    g.set_input_value(n, "trigger", Value::I64(0));

    g.run_all().unwrap();
    assert_eq!(
        g.node_outputs(n).unwrap().get("count"),
        Some(&Value::I64(1))
    );

    g.set_input_value(n, "trigger", Value::I64(1));
    g.invalidate_input("trigger");
    g.run_all().unwrap();
    assert_eq!(
        g.node_outputs(n).unwrap().get("count"),
        Some(&Value::I64(2))
    );
}

#[test]
fn native_node_in_dot_output() {
    let mut g = new_graph(HostNoop);
    let n = g
        .add_native_node("my_native", vec!["x".into()], vec!["y".into()], Box::new(SumCallback))
        .unwrap();
    g.set_input_value(n, "x", Value::I64(1));

    let dot = g.to_dot();
    assert!(dot.contains("node#0 (my_native)"), "dot={dot}");
    assert!(dot.contains("[native]"), "dot={dot}");
}

#[test]
fn native_node_duplicate_output_names_rejected() {
    let mut g = new_graph(HostNoop);
    let result = g.add_native_node(
        "bad",
        vec![],
        vec!["x".into(), "y".into(), "x".into()],
        Box::new(SumCallback),
    );
    assert_eq!(
        result,
        Err(GraphError::DuplicateOutputName { name: "x".into() })
    );
}

fn make_identity_program(output_name: &str) -> (Arc<VerifiedProgram>, FuncId) {
    let mut pb = ProgramBuilder::new();
    let mut a = Asm::new();
    a.ret(0, &[1]);
    let f = pb
        .push_function_checked(
            a,
            FunctionSig {
                arg_types: vec![ValueType::I64],
                ret_types: vec![ValueType::I64],
                reg_count: 2,
            },
        )
        .unwrap();
    pb.set_function_output_name(f, 0, output_name).unwrap();
    (Arc::new(pb.build_verified().unwrap()), f)
}

#[test]
fn to_dot_renders_ports_and_wired_edges() {
    let mut g = new_graph(HostNoop);
    let (a_prog, a_entry) = make_identity_program("subtotal");
    let (b_prog, b_entry) = make_identity_program("total");

    let na = g.add_node(a_prog, a_entry, vec!["qty".into()]);
    let nb = g.add_node(b_prog, b_entry, vec!["subtotal".into()]);
    g.set_input_value(na, "qty", Value::I64(2));
    g.connect(na, "subtotal", nb, "subtotal");

    let dot = g.to_dot();

    assert!(dot.contains("digraph ExecutionGraph {"));
    assert!(dot.contains("<in0> qty (external)"));
    assert!(dot.contains("<in0> subtotal \\<- 0.subtotal"));
    assert!(dot.contains("<out0> subtotal"));
    assert!(dot.contains("n0:out0 -> n1:in0;"));
}

#[test]
fn to_dot_marks_unknown_upstream_outputs_with_dashed_edges() {
    let mut g = new_graph(HostNoop);
    let (a_prog, a_entry) = make_identity_program("subtotal");
    let (b_prog, b_entry) = make_identity_program("total");

    let na = g.add_node(a_prog, a_entry, vec!["qty".into()]);
    let nb = g.add_node(b_prog, b_entry, vec!["subtotal".into()]);
    g.set_input_value(na, "qty", Value::I64(2));
    g.connect(na, "missing", nb, "subtotal");

    let dot = g.to_dot();

    assert!(
        dot.contains("n0 -> n1:in0 [label=\"missing\", style=dashed, color=\"firebrick\"];")
    );
}

#[test]
fn to_dot_includes_program_and_function_names_when_available() {
    let mut pb = ProgramBuilder::new();
    pb.set_program_name("named_program");
    let mut a = Asm::new();
    a.ret(0, &[1]);
    let f = pb
        .push_function_checked(
            a,
            FunctionSig {
                arg_types: vec![ValueType::I64],
                ret_types: vec![ValueType::I64],
                reg_count: 2,
            },
        )
        .unwrap();
    pb.set_function_name(f, "named_entry").unwrap();
    pb.set_function_output_name(f, 0, "value").unwrap();
    let prog = Arc::new(pb.build_verified().unwrap());

    let mut g = new_graph(HostNoop);
    let n = g.add_node(prog, f, vec!["x".into()]);
    g.set_input_value(n, "x", Value::I64(1));

    let dot = g.to_dot();
    assert!(dot.contains("node#0 (named_program)"));
    assert!(dot.contains("entry=f0 (named_entry)"));
}

#[test]
fn a_run_replaces_the_edges_of_connect() {
    let identity = || {
        let mut pb = ProgramBuilder::new();
        let mut a = Asm::new();
        a.ret(0, &[1]);
        let f = pb
            .push_function_checked(
                a,
                FunctionSig {
                    arg_types: vec![ValueType::I64],
                    ret_types: vec![ValueType::I64],
                    reg_count: 2,
                },
            )
            .unwrap();
        pb.set_function_output_name(f, 0, "value").unwrap();
        (Arc::new(pb.build_verified().unwrap()), f)
    };
    let constant = || {
        let mut pb = ProgramBuilder::new();
        let mut a = Asm::new();
        a.const_i64(1, 9);
        a.ret(0, &[1]);
        let f = pb
            .push_function_checked(
                a,
                FunctionSig { arg_types: vec![], ret_types: vec![ValueType::I64], reg_count: 2 },
            )
            .unwrap();
        pb.set_function_output_name(f, 0, "value").unwrap();
        (Arc::new(pb.build_verified().unwrap()), f)
    };
    let mut g = new_graph(HostNoop);
    let (p, f) = identity();
    let na = g.add_node(p, f, vec!["in".into()]);
    let (p, f) = constant();
    let nb = g.add_node(p, f, vec![]);
    g.set_input_value(na, "in", Value::I64(1));
    g.run_all().unwrap();
    g.connect(na, "value", nb, "not_an_input");
    g.run_all().unwrap();
    g.set_input_value(na, "in", Value::I64(2));
    g.invalidate_input("in");
    g.run_all().unwrap();
    assert_eq!(g.node_run_count(na), Some(2));
    assert_eq!(g.node_run_count(nb), Some(2));
}
