//! Graphs as Graphviz DOT.

use vstd::prelude::*;
use vstd::string::*;
use vstd::utf8::*;

use crate::access::NodeId;
use crate::digits;
use crate::digits::push_decimal;
use crate::dirty::DirtyEngine;
use crate::disasm;
use crate::graph;
use crate::graph::{Binding, ExecutionGraph, Node, NodeKind};
use crate::graph_model::{BindingModel, GraphView, KindModel, NodeModel};
use crate::host::Host;
use crate::ieee::FloatUnit;
use crate::pack;
use crate::program;
use crate::text::str_eq;

verus! {

/// A character as it stands in a record label.
pub open spec fn escaped_char(c: char) -> Seq<char> {
    if c == '|' {
        "\\|"@
    } else if c == '{' {
        "\\{"@
    } else if c == '}' {
        "\\}"@
    } else if c == '<' {
        "\\<"@
    } else if c == '>' {
        "\\>"@
    } else if c == '"' {
        "\\\""@
    } else if c == '\\' {
        "\\\\"@
    } else if c == '\n' {
        "\\n"@
    } else if c == '\r' {
        "\\r"@
    } else {
        seq![c]
    }
}

/// Text as it stands in a record label.
pub open spec fn escaped(s: Seq<char>) -> Seq<char>
    decreases s.len(),
{
    if s.len() == 0 {
        seq![]
    } else {
        escaped(s.drop_last()) + escaped_char(s.last())
    }
}

/// Fields of a record with bars between them.
pub open spec fn fields(n: nat, item: spec_fn(int) -> Seq<char>) -> Seq<char>
    decreases n,
{
    if n == 0 {
        seq![]
    } else if n == 1 {
        item(0)
    } else {
        fields((n - 1) as nat, item) + " | "@ + item(n - 1)
    }
}

/// What an input is bound to, with its name.
pub open spec fn binding_text(name: Seq<char>, b: Option<BindingModel>) -> Seq<char> {
    match b {
        Some(BindingModel::External { .. }) => name + " (external)"@,
        Some(BindingModel::FromNode { node, output, .. }) => name + " <- "@ + digits::decimal(
            node.0 as nat,
        ) + "."@ + output,
        None => name + " (unbound)"@,
    }
}

/// The field of an input.
pub open spec fn input_field(n: NodeModel) -> spec_fn(int) -> Seq<char> {
    |i: int|
        "<in"@ + digits::decimal(i as nat) + "> "@ + escaped(
            binding_text(n.input_names[i], n.inputs[i]),
        )
}

/// The field of an output.
pub open spec fn output_field(n: NodeModel) -> spec_fn(int) -> Seq<char> {
    |i: int| "<out"@ + digits::decimal(i as nat) + "> "@ + escaped(n.output_names[i])
}

/// The fields of all inputs, or of all outputs.
pub open spec fn block(n: nat, item: spec_fn(int) -> Seq<char>) -> Seq<char> {
    if n == 0 {
        seq![]
    } else {
        "{ "@ + fields(n, item) + " }"@
    }
}

/// A name in brackets, where there is one.
pub open spec fn bracketed(name: Option<Seq<char>>) -> Seq<char> {
    match name {
        Some(name) => " ("@ + name + ")"@,
        None => seq![],
    }
}

/// What a node is.
pub open spec fn head_text(id: nat, kind: KindModel) -> Seq<char> {
    match kind {
        KindModel::Tape { program, entry } => "node#"@ + digits::decimal(id) + bracketed(
            disasm::chars_of(program.program.symbol_opt(program.program.program_name)),
        ) + "\nentry=f"@ + digits::decimal(entry.0 as nat) + bracketed(
            disasm::chars_of(
                program.program.symbol_opt(
                    program::function_name_in(program.program.function_names, entry.0),
                ),
            ),
        ),
        KindModel::Native { name, .. } => "node#"@ + digits::decimal(id) + bracketed(Some(name))
            + "\n[native]"@,
    }
}

/// The label of a node.
pub open spec fn label_text(id: nat, n: NodeModel) -> Seq<char> {
    let ins = block(n.input_names.len(), input_field(n));
    let outs = block(n.output_names.len(), output_field(n));
    let center = escaped(head_text(id, n.kind));
    if n.input_names.len() == 0 && n.output_names.len() == 0 {
        center
    } else if n.input_names.len() == 0 {
        "{ "@ + center + " | "@ + outs + " }"@
    } else if n.output_names.len() == 0 {
        "{ "@ + ins + " | "@ + center + " }"@
    } else {
        "{ "@ + ins + " | "@ + center + " | "@ + outs + " }"@
    }
}

/// The line of a node.
pub open spec fn node_line(id: nat, n: NodeModel) -> Seq<char> {
    "  n"@ + digits::decimal(id) + " [label=\""@ + label_text(id, n) + "\"];\n"@
}

/// The lines of the first `k` nodes.
pub open spec fn node_lines(g: GraphView, k: nat) -> Seq<char>
    decreases k,
{
    if k == 0 {
        seq![]
    } else {
        node_lines(g, (k - 1) as nat) + node_line((k - 1) as nat, g.nodes[k - 1])
    }
}

/// The line of the edge into an input: from the output that it is bound to, or dashed where there is
/// no such output.
pub open spec fn edge_line(g: GraphView, dst: nat, slot: int) -> Seq<char> {
    match g.nodes[dst as int].inputs[slot] {
        Some(BindingModel::FromNode { node, output, .. }) => if g.has(node) && pack::position(
            g.node(node).output_names,
            output,
        ) < g.node(node).output_names.len() {
            "  n"@ + digits::decimal(node.0 as nat) + ":out"@ + digits::decimal(
                pack::position(g.node(node).output_names, output),
            ) + " -> n"@ + digits::decimal(dst) + ":in"@ + digits::decimal(slot as nat) + ";\n"@
        } else {
            "  n"@ + digits::decimal(node.0 as nat) + " -> n"@ + digits::decimal(dst) + ":in"@
                + digits::decimal(slot as nat) + " [label=\""@ + escaped(output)
                + "\", style=dashed, color=\"firebrick\"];\n"@
        },
        _ => seq![],
    }
}

/// The lines of the edges into the first `k` inputs of a node.
pub open spec fn edge_lines_of(g: GraphView, dst: nat, k: nat) -> Seq<char>
    decreases k,
{
    if k == 0 {
        seq![]
    } else {
        edge_lines_of(g, dst, (k - 1) as nat) + edge_line(g, dst, k - 1)
    }
}

/// The lines of the edges into the first `k` nodes.
pub open spec fn edge_lines(g: GraphView, k: nat) -> Seq<char>
    decreases k,
{
    if k == 0 {
        seq![]
    } else {
        edge_lines(g, (k - 1) as nat) + edge_lines_of(
            g,
            (k - 1) as nat,
            g.nodes[k - 1].input_names.len(),
        )
    }
}

/// What comes before the nodes.
pub open spec fn dot_head() -> Seq<char> {
    "digraph ExecutionGraph {\n\trankdir=LR;\n\tranksep=1.1;\n\tnodesep=0.7;\n\tnode [shape=record, fontname=\"monospace\", fontsize=10, margin=\"0.08,0.04\"];\n\tedge [fontname=\"monospace\", fontsize=9, arrowsize=0.7];\n"@
}

/// A graph as Graphviz DOT.
pub open spec fn dot_text(g: GraphView) -> Seq<char> {
    dot_head() + node_lines(g, g.nodes.len()) + edge_lines(g, g.nodes.len()) + "}\n"@
}

// ---------------------------------------------------------------------------------------------
// Writing.
// ---------------------------------------------------------------------------------------------

/// Appends character `i` of a text as it stands in a record label.
fn push_escaped_char(out: &mut String, s: &str, i: usize)
    requires
        i < s@.len(),
        i < usize::MAX,
    ensures
        final(out)@ == old(out)@ + escaped_char(s@[i as int]),
{
    let c: char = s.get_char(i);
    if c == '|' {
        out.append("\\|");
    } else if c == '{' {
        out.append("\\{");
    } else if c == '}' {
        out.append("\\}");
    } else if c == '<' {
        out.append("\\<");
    } else if c == '>' {
        out.append("\\>");
    } else if c == '"' {
        out.append("\\\"");
    } else if c == '\\' {
        out.append("\\\\");
    } else if c == '\n' {
        out.append("\\n");
    } else if c == '\r' {
        out.append("\\r");
    } else {
        out.append(s.substring_char(i, i + 1));
        assert(out@ =~= old(out)@ + seq![c]);
    }
}

/// Text as it stands in a record label.
fn escape_record(value: &str) -> (s: String)
    ensures
        s@ == escaped(value@),
{
    let n: usize = value.unicode_len();
    let mut s = String::new();
    let mut i: usize = 0;
    assert(value@.take(0) =~= Seq::<char>::empty());
    assert(s@ =~= Seq::<char>::empty());
    while i < n
        invariant
            i <= n,
            n == value@.len(),
            s@ == escaped(value@.take(i as int)),
        decreases n - i,
    {
        assert(value@.take(i + 1).drop_last() =~= value@.take(i as int));
        push_escaped_char(&mut s, value, i);
        i = i + 1;
    }
    assert(value@.take(i as int) =~= value@);
    s
}

/// What an input is bound to, with its name.
fn binding_string(name: &str, b: &Option<Binding>) -> (s: String)
    ensures
        s@ == binding_text(name@, graph::binding_model(*b)),
{
    let mut s = String::new();
    s.append(name);
    assert(s@ =~= name@);
    match b {
        Some(Binding::External { .. }) => s.append(" (external)"),
        Some(Binding::FromNode { node, output, .. }) => {
            s.append(" <- ");
            push_decimal(&mut s, node.0);
            s.append(".");
            s.append(output.as_str());
        },
        None => s.append(" (unbound)"),
    }
    s
}

/// The fields of the inputs of a node.
fn record_inputs(node: &Node) -> (s: String)
    requires
        node@.inputs.len() == node@.input_names.len(),
    ensures
        s@ == block(node@.input_names.len(), input_field(node@)),
{
    let mut s = String::new();
    if node.input_names.len() == 0 {
        assert(s@ =~= Seq::<char>::empty());
        return s;
    }
    let ghost item = input_field(node@);
    s.append("{ ");
    assert(s@ =~= "{ "@ + fields(0, item));
    let mut i: usize = 0;
    while i < node.input_names.len()
        invariant
            i <= node.input_names@.len(),
            node.inputs@.len() == node.input_names@.len(),
            item == input_field(node@),
            s@ == "{ "@ + fields(i as nat, item),
        decreases node.input_names@.len() - i,
    {
        let bound = binding_string(node.input_names[i].as_str(), &node.inputs[i]);
        let rendered = escape_record(bound.as_str());
        let mut field = String::new();
        field.append("<in");
        assert(field@ =~= "<in"@);
        push_decimal(&mut field, i as u64);
        field.append("> ");
        field.append(rendered.as_str());
        assert(node@.input_names[i as int] == node.input_names@[i as int]@);
        assert(node@.inputs[i as int] == graph::binding_model(node.inputs@[i as int]));
        assert(field@ == item(i as int));
        if i != 0 {
            s.append(" | ");
        }
        s.append(field.as_str());
        i = i + 1;
        assert(s@ =~= "{ "@ + fields(i as nat, item));
    }
    s.append(" }");
    s
}

/// The fields of the outputs of a node.
fn record_outputs(node: &Node) -> (s: String)
    ensures
        s@ == block(node@.output_names.len(), output_field(node@)),
{
    let mut s = String::new();
    if node.output_names.len() == 0 {
        assert(s@ =~= Seq::<char>::empty());
        return s;
    }
    let ghost item = output_field(node@);
    s.append("{ ");
    assert(s@ =~= "{ "@ + fields(0, item));
    let mut i: usize = 0;
    while i < node.output_names.len()
        invariant
            i <= node.output_names@.len(),
            item == output_field(node@),
            s@ == "{ "@ + fields(i as nat, item),
        decreases node.output_names@.len() - i,
    {
        let rendered = escape_record(node.output_names[i].as_str());
        let mut field = String::new();
        field.append("<out");
        assert(field@ =~= "<out"@);
        push_decimal(&mut field, i as u64);
        field.append("> ");
        field.append(rendered.as_str());
        assert(node@.output_names[i as int] == node.output_names@[i as int]@);
        assert(field@ == item(i as int));
        if i != 0 {
            s.append(" | ");
        }
        s.append(field.as_str());
        i = i + 1;
        assert(s@ =~= "{ "@ + fields(i as nat, item));
    }
    s.append(" }");
    s
}

/// Where an output stands among the outputs of a node.
fn output_slot(node: &Node, output_name: &str) -> (res: Option<usize>)
    ensures
        match res {
            Some(i) => i == pack::position(node@.output_names, output_name@) && i
                < node@.output_names.len(),
            None => pack::position(node@.output_names, output_name@)
                >= node@.output_names.len(),
        },
{
    let ghost names = node@.output_names;
    let mut i: usize = 0;
    assert(names.skip(0) =~= names);
    while i < node.output_names.len()
        invariant
            i <= node.output_names@.len(),
            names == node@.output_names,
            pack::position(names, output_name@) == i + pack::position(
                names.skip(i as int),
                output_name@,
            ),
        decreases node.output_names@.len() - i,
    {
        assert(names.skip(i as int)[0] == node.output_names@[i as int]@);
        assert(names.skip(i as int).drop_first() =~= names.skip(i + 1));
        if str_eq(node.output_names[i].as_str(), output_name) {
            return Some(i);
        }
        i = i + 1;
    }
    None
}

/// Appends a name in brackets, where there is one.
fn push_bracketed(out: &mut String, name: Option<&str>, Ghost(b): Ghost<Option<Seq<u8>>>)
    requires
        program::is_opt_text(name, b),
    ensures
        final(out)@ == old(out)@ + bracketed(disasm::chars_of(b)),
{
    match name {
        Some(name) => {
            proof {
                encode_utf8_decode_utf8(name@);
            }
            out.append(" (");
            out.append(name);
            out.append(")");
        },
        None => {},
    }
    assert(out@ =~= old(out)@ + bracketed(disasm::chars_of(b)));
}

/// What a node is.
fn head_string(id: usize, node: &Node) -> (s: String)
    ensures
        s@ == head_text(id as nat, node@.kind),
{
    let mut s = String::new();
    s.append("node#");
    assert(s@ =~= "node#"@);
    push_decimal(&mut s, id as u64);
    match &node.kind {
        NodeKind::Tape { program, entry } => {
            let p = program.program();
            push_bracketed(&mut s, p.name(), Ghost(p@.symbol_opt(p@.program_name)));
            s.append("\nentry=f");
            push_decimal(&mut s, entry.0 as u64);
            push_bracketed(
                &mut s,
                p.function_name(entry.0),
                Ghost(p@.symbol_opt(program::function_name_in(p@.function_names, entry.0))),
            );
        },
        NodeKind::Native { name, .. } => {
            let ghost before = s@;
            s.append(" (");
            s.append(name.as_str());
            s.append(")");
            assert(s@ =~= before + bracketed(Some(name@)));
            s.append("\n[native]");
        },
    }
    s
}

/// The label of a node.
fn label_string(id: usize, node: &Node) -> (s: String)
    requires
        node@.inputs.len() == node@.input_names.len(),
    ensures
        s@ == label_text(id as nat, node@),
{
    let ins = record_inputs(node);
    let outs = record_outputs(node);
    let head = head_string(id, node);
    let center = escape_record(head.as_str());
    let no_ins = node.input_names.len() == 0;
    let no_outs = node.output_names.len() == 0;
    if no_ins && no_outs {
        return center;
    }
    let mut s = String::new();
    s.append("{ ");
    assert(s@ =~= "{ "@);
    if !no_ins {
        s.append(ins.as_str());
        s.append(" | ");
    }
    s.append(center.as_str());
    if !no_outs {
        s.append(" | ");
        s.append(outs.as_str());
    }
    s.append(" }");
    s
}

/// The line of a node.
fn node_string(id: usize, node: &Node) -> (s: String)
    requires
        node@.inputs.len() == node@.input_names.len(),
    ensures
        s@ == node_line(id as nat, node@),
{
    let label = label_string(id, node);
    let mut s = String::new();
    s.append("  n");
    assert(s@ =~= "  n"@);
    push_decimal(&mut s, id as u64);
    s.append(" [label=\"");
    s.append(label.as_str());
    s.append("\"];\n");
    s
}

impl<H: Host, F: FloatUnit, D: DirtyEngine> ExecutionGraph<H, F, D> {
    /// The line of the edge into an input.
    fn edge_string(&self, dst: usize, node: &Node, slot: usize) -> (s: String)
        requires
            self.wf(),
            dst < self@.nodes.len(),
            node@ == self@.nodes[dst as int],
            slot < node@.inputs.len(),
        ensures
            s@ == edge_line(self@, dst as nat, slot as int),
    {
        assert(node@.inputs[slot as int] == graph::binding_model(node.inputs@[slot as int]));
        let mut s = String::new();
        match &node.inputs[slot] {
            Some(Binding::FromNode { node: src, output, .. }) => {
                s.append("  n");
                assert(s@ =~= "  n"@);
                push_decimal(&mut s, src.0);
                let src_slot: Option<usize> = match self.node_at(*src) {
                    Some(n) => output_slot(n, output.as_str()),
                    None => None,
                };
                match src_slot {
                    Some(k) => {
                        s.append(":out");
                        push_decimal(&mut s, k as u64);
                        s.append(" -> n");
                        push_decimal(&mut s, dst as u64);
                        s.append(":in");
                        push_decimal(&mut s, slot as u64);
                        s.append(";\n");
                    },
                    None => {
                        let label = escape_record(output.as_str());
                        s.append(" -> n");
                        push_decimal(&mut s, dst as u64);
                        s.append(":in");
                        push_decimal(&mut s, slot as u64);
                        s.append(" [label=\"");
                        s.append(label.as_str());
                        s.append("\", style=dashed, color=\"firebrick\"];\n");
                    },
                }
            },
            _ => {
                assert(s@ =~= Seq::<char>::empty());
            },
        }
        s
    }

    /// The lines of the edges into a node.
    fn edges_string(&self, dst: usize) -> (s: String)
        requires
            self.wf(),
            dst < self@.nodes.len(),
        ensures
            s@ == edge_lines_of(self@, dst as nat, self@.nodes[dst as int].input_names.len()),
    {
        let mut s = String::new();
        assert(s@ =~= Seq::<char>::empty());
        match self.node_at(NodeId::new(dst as u64)) {
            Some(node) => {
                proof {
                    self.lemma_node(dst as int);
                }
                let mut slot: usize = 0;
                while slot < node.input_names.len()
                    invariant
                        self.wf(),
                        dst < self@.nodes.len(),
                        node@ == self@.nodes[dst as int],
                        slot <= node.input_names@.len(),
                        node.inputs@.len() == node.input_names@.len(),
                        s@ == edge_lines_of(self@, dst as nat, slot as nat),
                    decreases node.input_names@.len() - slot,
                {
                    let line = self.edge_string(dst, node, slot);
                    s.append(line.as_str());
                    slot = slot + 1;
                }
            },
            None => {},
        }
        s
    }

    /// This graph as Graphviz DOT.
    ///
    /// A node is a record with a port for each input and output. A connection to an output that
    /// does not exist is a dashed edge.
    #[must_use]
    pub fn to_dot(&self) -> (s: String)
        requires
            self.wf(),
        ensures
            s@ == dot_text(self@),
    {
        let ghost g = self@;
        let n: usize = self.node_count();
        let mut nodes = String::new();
        let mut edges = String::new();
        assert(nodes@ =~= Seq::<char>::empty());
        assert(edges@ =~= Seq::<char>::empty());
        let mut i: usize = 0;
        while i < n
            invariant
                i <= n,
                n == g.nodes.len(),
                g == self@,
                self.wf(),
                nodes@ == node_lines(g, i as nat),
                edges@ == edge_lines(g, i as nat),
            decreases n - i,
        {
            match self.node_at(NodeId::new(i as u64)) {
                Some(node) => {
                    proof {
                        self.lemma_node(i as int);
                    }
                    let line = node_string(i, node);
                    nodes.append(line.as_str());
                },
                None => {},
            }
            let lines = self.edges_string(i);
            edges.append(lines.as_str());
            i = i + 1;
        }
        let mut s = String::new();
        s.append("digraph ExecutionGraph {\n\trankdir=LR;\n\tranksep=1.1;\n\tnodesep=0.7;\n\tnode [shape=record, fontname=\"monospace\", fontsize=10, margin=\"0.08,0.04\"];\n\tedge [fontname=\"monospace\", fontsize=9, arrowsize=0.7];\n");
        assert(s@ =~= dot_head());
        s.append(nodes.as_str());
        s.append(edges.as_str());
        s.append("}\n");
        s
    }
}

} // verus!
