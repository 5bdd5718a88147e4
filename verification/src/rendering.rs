//! What can be read off the texts that graphs and programs are written as.

use vstd::prelude::*;

use crate::access::NodeId;
use crate::digits;
use crate::disasm;
use crate::dot;
use crate::graph_model::{BindingModel, GraphView, NodeModel};
use crate::listing;
use crate::naming;
use crate::pack;
use crate::program::ProgramView;
use crate::value::FuncId;

verus! {

// ---------------------------------------------------------------------------------------------
// Escapes.
// ---------------------------------------------------------------------------------------------

proof fn lemma_strips<T>(a: Seq<T>, x: Seq<T>, b: Seq<T>, y: Seq<T>)
    requires
        a + x == b + y,
        a.len() == b.len(),
    ensures
        a == b,
        x == y,
{
    assert(a =~= (a + x).take(a.len() as int));
    assert(b =~= (b + y).take(b.len() as int));
    assert(x =~= (a + x).skip(a.len() as int));
    assert(y =~= (b + y).skip(b.len() as int));
}

proof fn lemma_strips_end<T>(a: Seq<T>, x: Seq<T>, b: Seq<T>, y: Seq<T>)
    requires
        a + x == b + y,
        x.len() == y.len(),
    ensures
        a == b,
        x == y,
{
    assert((a + x).len() == a.len() + x.len());
    assert((b + y).len() == b.len() + y.len());
    lemma_strips(a, x, b, y);
}

proof fn lemma_dot_char(c: char)
    ensures
        ({
            let e = dot::escaped_char(c);
            if c == '|' || c == '{' || c == '}' || c == '<' || c == '>' || c == '"' || c == '\\' {
                e == seq!['\\', c]
            } else if c == '\n' {
                e == seq!['\\', 'n']
            } else if c == '\r' {
                e == seq!['\\', 'r']
            } else {
                e == seq![c]
            }
        }),
{
    reveal_strlit("\\|");
    reveal_strlit("\\{");
    reveal_strlit("\\}");
    reveal_strlit("\\<");
    reveal_strlit("\\>");
    reveal_strlit("\\\"");
    reveal_strlit("\\\\");
    reveal_strlit("\\n");
    reveal_strlit("\\r");
    let e = dot::escaped_char(c);
    if e.len() == 2 {
        assert(e =~= seq![e[0], e[1]]);
    }
}

proof fn lemma_dot_front(s: Seq<char>)
    requires
        s.len() > 0,
    ensures
        dot::escaped(s) == dot::escaped_char(s[0]) + dot::escaped(s.drop_first()),
    decreases s.len(),
{
    if s.len() == 1 {
        reveal_with_fuel(dot::escaped, 2);
        assert(s.drop_last() =~= Seq::empty());
        assert(s.drop_first() =~= Seq::empty());
        assert(dot::escaped(s) =~= dot::escaped_char(s[0]));
        assert(dot::escaped_char(s[0]) + dot::escaped(s.drop_first()) =~= dot::escaped_char(s[0]));
    } else {
        lemma_dot_front(s.drop_last());
        assert(s.drop_last().drop_first() =~= s.drop_first().drop_last());
        assert(dot::escaped(s) =~= dot::escaped_char(s[0]) + (dot::escaped(
            s.drop_first().drop_last(),
        ) + dot::escaped_char(s.last())));
    }
}

/// Text in a label of a graph determines what it stands for: no two texts are written alike.
pub proof fn law_dot_text_determines(s: Seq<char>, t: Seq<char>)
    requires
        dot::escaped(s) == dot::escaped(t),
    ensures
        s == t,
    decreases s.len(),
{
    if s.len() > 0 {
        lemma_dot_front(s);
        lemma_dot_char(s[0]);
    }
    if t.len() > 0 {
        lemma_dot_front(t);
        lemma_dot_char(t[0]);
    }
    if s.len() == 0 || t.len() == 0 {
        assert(s =~= t);
    } else {
        let a = dot::escaped_char(s[0]);
        let b = dot::escaped_char(t[0]);
        let x = dot::escaped(s.drop_first());
        let y = dot::escaped(t.drop_first());
        assert((a + x)[0] == a[0] && (b + y)[0] == b[0]);
        assert(a.len() == b.len());
        lemma_strips(a, x, b, y);
        if a.len() == 2 {
            assert(a[1] == b[1]);
        }
        law_dot_text_determines(s.drop_first(), t.drop_first());
        assert(s =~= seq![s[0]] + s.drop_first());
        assert(t =~= seq![t[0]] + t.drop_first());
    }
}

/// In the text of a label a quotation mark, a bar, a brace or an angle bracket stands behind a
/// backslash, and there is no line break.
pub proof fn law_dot_text_is_safe(s: Seq<char>, k: int)
    requires
        0 <= k < dot::escaped(s).len(),
    ensures
        ({
            let c = dot::escaped(s)[k];
            &&& c != '\n' && c != '\r'
            &&& c == '"' || c == '|' || c == '{' || c == '}' || c == '<' || c == '>' ==> k > 0
                && dot::escaped(s)[k - 1] == '\\'
        }),
    decreases s.len(),
{
    lemma_dot_char(s.last());
    let a = dot::escaped(s.drop_last());
    if k < a.len() {
        law_dot_text_is_safe(s.drop_last(), k);
    }
}

/// Two numbers are written alike only where they are the same.
pub proof fn law_decimal_determines(n: nat, m: nat)
    requires
        digits::decimal(n) == digits::decimal(m),
    ensures
        n == m,
{
    naming::law_decimal(n);
    naming::law_decimal(m);
}

// ---------------------------------------------------------------------------------------------
// Graphs.
// ---------------------------------------------------------------------------------------------

/// The line of the edge from an output to an input names the node and the number of the output, and
/// the other node and the number of the input.
pub proof fn law_dot_edge(
    g: GraphView,
    from: NodeId,
    i: int,
    dst: nat,
    slot: int,
)
    requires
        dst < g.nodes.len(),
        0 <= slot < g.nodes[dst as int].inputs.len(),
        from.0 < g.nodes.len(),
        0 <= i < g.nodes[from.0 as int].output_names.len(),
        forall|k: int|
            0 <= k < i ==> (#[trigger] g.nodes[from.0 as int].output_names[k])
                != g.nodes[from.0 as int].output_names[i],
        g.nodes[dst as int].inputs[slot] matches Some(BindingModel::FromNode { node, output, .. })
            && node == from && output == g.nodes[from.0 as int].output_names[i],
    ensures
        dot::edge_line(g, dst, slot) == "  n"@ + digits::decimal(from.0 as nat) + ":out"@
            + digits::decimal(i as nat) + " -> n"@ + digits::decimal(dst) + ":in"@
            + digits::decimal(slot as nat) + ";\n"@,
{
    pack::lemma_position(
        g.nodes[from.0 as int].output_names,
        g.nodes[from.0 as int].output_names[i],
        i as nat,
    );
}

/// A text stands in another.
pub open spec fn stands_in(part: Seq<char>, whole: Seq<char>) -> bool {
    exists|a: Seq<char>, b: Seq<char>| #[trigger] ((a + part) + b) == whole
}

proof fn lemma_stands_in(a: Seq<char>, part: Seq<char>, b: Seq<char>, whole: Seq<char>)
    requires
        a + part + b == whole,
    ensures
        stands_in(part, whole),
{
    assert((a + part) + b == whole);
}

proof fn lemma_stands_in_sum(part: Seq<char>, a: Seq<char>, mid: Seq<char>, b: Seq<char>)
    requires
        stands_in(part, mid),
    ensures
        stands_in(part, a + mid + b),
{
    let (x, y) = choose|x: Seq<char>, y: Seq<char>| #[trigger] ((x + part) + y) == mid;
    assert((a + x) + part + (y + b) =~= a + mid + b);
    lemma_stands_in(a + x, part, y + b, a + mid + b);
}

proof fn lemma_node_lines(g: GraphView, k: nat, i: int)
    requires
        0 <= i < k <= g.nodes.len(),
    ensures
        stands_in(dot::node_line(i as nat, g.nodes[i]), dot::node_lines(g, k)),
    decreases k,
{
    let a = dot::node_lines(g, (k - 1) as nat);
    let l = dot::node_line((k - 1) as nat, g.nodes[k - 1]);
    assert(dot::node_lines(g, k) == a + l);
    if i == k - 1 {
        assert(a + l + Seq::empty() =~= a + l);
        lemma_stands_in(a, l, Seq::empty(), a + l);
    } else {
        lemma_node_lines(g, (k - 1) as nat, i);
        lemma_stands_in_sum(dot::node_line(i as nat, g.nodes[i]), Seq::empty(), a, l);
        assert(Seq::empty() + a + l =~= a + l);
    }
}

proof fn lemma_edge_lines_of(g: GraphView, dst: nat, k: nat, slot: int)
    requires
        0 <= slot < k,
    ensures
        stands_in(dot::edge_line(g, dst, slot), dot::edge_lines_of(g, dst, k)),
    decreases k,
{
    let a = dot::edge_lines_of(g, dst, (k - 1) as nat);
    let l = dot::edge_line(g, dst, k - 1);
    assert(dot::edge_lines_of(g, dst, k) == a + l);
    if slot == k - 1 {
        assert(a + l + Seq::empty() =~= a + l);
        lemma_stands_in(a, l, Seq::empty(), a + l);
    } else {
        lemma_edge_lines_of(g, dst, (k - 1) as nat, slot);
        lemma_stands_in_sum(dot::edge_line(g, dst, slot), Seq::empty(), a, l);
        assert(Seq::empty() + a + l =~= a + l);
    }
}

proof fn lemma_edge_lines(g: GraphView, k: nat, dst: nat, slot: int)
    requires
        dst < k <= g.nodes.len(),
        0 <= slot < g.nodes[dst as int].input_names.len(),
    ensures
        stands_in(dot::edge_line(g, dst, slot), dot::edge_lines(g, k)),
    decreases k,
{
    let a = dot::edge_lines(g, (k - 1) as nat);
    let l = dot::edge_lines_of(g, (k - 1) as nat, g.nodes[k - 1].input_names.len());
    assert(dot::edge_lines(g, k) == a + l);
    let e = dot::edge_line(g, dst, slot);
    if dst == k - 1 {
        lemma_edge_lines_of(g, dst, g.nodes[dst as int].input_names.len(), slot);
        lemma_stands_in_sum(e, a, l, Seq::empty());
        assert(a + l + Seq::empty() =~= a + l);
    } else {
        lemma_edge_lines(g, (k - 1) as nat, dst, slot);
        lemma_stands_in_sum(e, Seq::empty(), a, l);
        assert(Seq::empty() + a + l =~= a + l);
    }
}

/// The text of a graph has the line of every node, and the line of the edge into every input.
pub proof fn law_dot_complete(g: GraphView, i: int, slot: int)
    requires
        0 <= i < g.nodes.len(),
    ensures
        stands_in(dot::node_line(i as nat, g.nodes[i]), dot::dot_text(g)),
        0 <= slot < g.nodes[i].input_names.len() ==> stands_in(
            dot::edge_line(g, i as nat, slot),
            dot::dot_text(g),
        ),
{
    let h = dot::dot_head();
    let n = dot::node_lines(g, g.nodes.len());
    let e = dot::edge_lines(g, g.nodes.len());
    lemma_node_lines(g, g.nodes.len(), i);
    lemma_stands_in_sum(dot::node_line(i as nat, g.nodes[i]), h, n, e + "}\n"@);
    assert(h + n + (e + "}\n"@) =~= dot::dot_text(g));
    if 0 <= slot < g.nodes[i].input_names.len() {
        lemma_edge_lines(g, g.nodes.len(), i as nat, slot);
        lemma_stands_in_sum(dot::edge_line(g, i as nat, slot), h + n, e, "}\n"@);
    }
}

// ---------------------------------------------------------------------------------------------
// Listings.
// ---------------------------------------------------------------------------------------------

proof fn lemma_hex_chars(n: nat)
    ensures
        digits::hex(n).len() > 0,
        forall|k: int| 0 <= k < digits::hex(n).len() ==> (#[trigger] digits::hex(n)[k]) != '}',
    decreases n,
{
    if n >= 16 {
        lemma_hex_chars(n / 16);
        let d = digits::hex(n / 16);
        assert forall|k: int| 0 <= k < digits::hex(n).len() implies (#[trigger] digits::hex(n)[k])
            != '}' by {
            if k < d.len() {
                assert(digits::hex(n)[k] == d[k]);
            }
        }
    }
}

proof fn lemma_literal_char(c: char)
    ensures
        ({
            let e = listing::escaped(c);
            if c == '\t' {
                e == seq!['\\', 't']
            } else if c == '\r' {
                e == seq!['\\', 'r']
            } else if c == '\n' {
                e == seq!['\\', 'n']
            } else if c == '\'' || c == '"' || c == '\\' {
                e == seq!['\\', c]
            } else if ' ' <= c <= '~' {
                e == seq![c]
            } else {
                e == seq!['\\', 'u', '{'] + digits::hex(c as u32 as nat) + seq!['}']
            }
        }),
{
    reveal_strlit("\\t");
    reveal_strlit("\\r");
    reveal_strlit("\\n");
    reveal_strlit("\\'");
    reveal_strlit("\\\"");
    reveal_strlit("\\\\");
    reveal_strlit("\\u{");
    reveal_strlit("}");
    let e = listing::escaped(c);
    assert("\\u{"@ =~= seq!['\\', 'u', '{']);
    assert("}"@ =~= seq!['}']);
    if e.len() == 2 {
        assert(e =~= seq![e[0], e[1]]);
    }
}

proof fn lemma_literal_injective(c: char, d: char, x: Seq<char>, y: Seq<char>)
    requires
        listing::escaped(c) + x == listing::escaped(d) + y,
    ensures
        c == d,
        x == y,
{
    lemma_literal_char(c);
    lemma_literal_char(d);
    let a = listing::escaped(c);
    let b = listing::escaped(d);
    let s = a + x;
    assert(s[0] == a[0] && s[0] == b[0]);
    if a[0] != '\\' {
        assert(a.len() == 1 && b.len() == 1);
        lemma_strips(a, x, b, y);
    } else {
        lemma_hex_chars(c as u32 as nat);
        lemma_hex_chars(d as u32 as nat);
        assert(s[1] == a[1] && s[1] == b[1]);
        if a[1] == 'u' {
            let h = digits::hex(c as u32 as nat);
            let k = digits::hex(d as u32 as nat);
            assert(a[a.len() - 1] == '}' && b[b.len() - 1] == '}');
            assert(h.len() == k.len()) by {
                if h.len() < k.len() {
                    assert(s[a.len() - 1] == '}');
                    assert(s[a.len() - 1] == b[a.len() - 1]);
                    assert(b[a.len() - 1] == k[h.len() as int]);
                }
                if k.len() < h.len() {
                    assert(s[b.len() - 1] == '}');
                    assert(s[b.len() - 1] == a[b.len() - 1]);
                    assert(a[b.len() - 1] == h[k.len() as int]);
                }
            }
            lemma_strips(a, x, b, y);
            assert(h =~= a.subrange(3, 3 + h.len() as int));
            assert(k =~= b.subrange(3, 3 + k.len() as int));
            naming::law_hex(c as u32 as nat);
            naming::law_hex(d as u32 as nat);
        } else {
            assert(a.len() == 2 && b.len() == 2);
            lemma_strips(a, x, b, y);
            assert(a[1] == b[1]);
        }
    }
}

proof fn lemma_literal_front(s: Seq<char>)
    requires
        s.len() > 0,
    ensures
        listing::escaped_all(s) == listing::escaped(s[0]) + listing::escaped_all(s.drop_first()),
    decreases s.len(),
{
    if s.len() == 1 {
        reveal_with_fuel(listing::escaped_all, 2);
        assert(s.drop_last() =~= Seq::empty());
        assert(s.drop_first() =~= Seq::empty());
        assert(listing::escaped_all(s) =~= listing::escaped(s[0]));
        assert(listing::escaped(s[0]) + listing::escaped_all(s.drop_first()) =~= listing::escaped(
            s[0],
        ));
    } else {
        lemma_literal_front(s.drop_last());
        assert(s.drop_last().drop_first() =~= s.drop_first().drop_last());
        assert(listing::escaped_all(s) =~= listing::escaped(s[0]) + (listing::escaped_all(
            s.drop_first().drop_last(),
        ) + listing::escaped(s.last())));
    }
}

/// Text in a literal of a listing determines what it stands for: no two texts are written alike.
pub proof fn law_literal_determines(s: Seq<char>, t: Seq<char>)
    requires
        listing::escaped_all(s) == listing::escaped_all(t),
    ensures
        s == t,
    decreases s.len(),
{
    if s.len() > 0 {
        lemma_literal_front(s);
        lemma_literal_char(s[0]);
    }
    if t.len() > 0 {
        lemma_literal_front(t);
        lemma_literal_char(t[0]);
    }
    if s.len() == 0 || t.len() == 0 {
        assert(s =~= t);
    } else {
        lemma_literal_injective(
            s[0],
            t[0],
            listing::escaped_all(s.drop_first()),
            listing::escaped_all(t.drop_first()),
        );
        law_literal_determines(s.drop_first(), t.drop_first());
        assert(s =~= seq![s[0]] + s.drop_first());
        assert(t =~= seq![t[0]] + t.drop_first());
    }
}

/// Bytes in hexadecimal determine what they stand for, and take two digits each.
pub proof fn law_bytes_determine(a: Seq<u8>, b: Seq<u8>)
    requires
        listing::bytes_text(a) == listing::bytes_text(b),
    ensures
        a == b,
        listing::bytes_text(a).len() == 2 * a.len(),
    decreases a.len(),
{
    lemma_bytes_len(a);
    lemma_bytes_len(b);
    if a.len() > 0 {
        let x = digits::hex_wide(a.last() as nat, 2);
        let y = digits::hex_wide(b.last() as nat, 2);
        naming::law_hex_wide(a.last() as nat, 2);
        naming::law_hex_wide(b.last() as nat, 2);
        lemma_strips_end(listing::bytes_text(a.drop_last()), x, listing::bytes_text(b.drop_last()), y);
        assert(vstd::arithmetic::power::pow(16, 2) == 256) by {
            reveal(vstd::arithmetic::power::pow);
            reveal_with_fuel(vstd::arithmetic::power::pow, 3);
        }
        assert(a.last() as nat % 256 == a.last() && b.last() as nat % 256 == b.last());
        assert(a.last() == b.last());
        law_bytes_determine(a.drop_last(), b.drop_last());
        assert(a =~= a.drop_last().push(a.last()));
        assert(b =~= b.drop_last().push(b.last()));
    } else {
        assert(a =~= b);
    }
}

proof fn lemma_bytes_len(a: Seq<u8>)
    ensures
        listing::bytes_text(a).len() == 2 * a.len(),
    decreases a.len(),
{
    if a.len() > 0 {
        lemma_bytes_len(a.drop_last());
        naming::law_hex_wide(a.last() as nat, 2);
    }
}

/// The target of a branch is written as the number of its label where it has one, and else as its
/// position.
pub proof fn law_target(pc: u32, labels: Seq<u32>, i: int)
    requires
        disasm::increasing(labels),
    ensures
        0 <= i < labels.len() && labels[i] == pc ==> listing::target_text(pc, Some(labels)) == "@L"@
            + digits::decimal(i as nat),
        !labels.contains(pc) ==> listing::target_text(pc, Some(labels)) == "@"@ + digits::padded(
            pc as nat,
            6,
        ),
        listing::target_text(pc, None) == "@"@ + digits::padded(pc as nat, 6),
{
    if 0 <= i < labels.len() && labels[i] == pc {
        assert forall|k: int| 0 <= k < i implies (#[trigger] labels[k]) != pc by {
            assert(labels[k] < labels[i]);
        }
        pack::lemma_position(labels, pc, i as nat);
    }
    if !labels.contains(pc) {
        pack::lemma_position_found(labels, pc);
    }
}

/// A branch is written with its condition, then where it goes if that holds and then where it goes
/// if it does not.
pub proof fn law_branch_line(
    floats: Map<u64, Seq<char>>,
    p: ProgramView,
    func: FuncId,
    x: crate::bytecode::InstrModel,
    labels: Option<Seq<u32>>,
    c: u32,
    a: u32,
    b: u32,
)
    requires
        x.op is Br,
        x.operands == seq![
            crate::bytecode::OperandModel::Word(c),
            crate::bytecode::OperandModel::Word(a),
            crate::bytecode::OperandModel::Word(b),
        ],
    ensures
        listing::instr_text(floats, p, func, x, labels) == digits::padded(x.offset as nat, 6)
            + ": "@ + "br"@ + (" "@ + ("r"@ + digits::decimal(c as nat)) + ", "@
            + listing::target_text(a, labels) + ", "@ + listing::target_text(b, labels)),
{
}

/// A number with zeros before it is as wide as asked for at least, and stands for the number.
pub proof fn law_padded(n: nat, width: nat)
    ensures
        digits::padded(n, width).len() >= width,
        naming::number(digits::padded(n, width)) == n,
{
    naming::law_decimal(n);
    let d = digits::decimal(n);
    if d.len() < width {
        lemma_zeros((width - d.len()) as nat, d);
    }
}

proof fn lemma_zeros(k: nat, d: Seq<char>)
    ensures
        naming::number(digits::zeros(k) + d) == naming::number(d),
    decreases d.len(),
{
    if d.len() == 0 {
        assert(digits::zeros(k) + d =~= digits::zeros(k));
        lemma_zero(k);
    } else {
        assert((digits::zeros(k) + d).drop_last() =~= digits::zeros(k) + d.drop_last());
        lemma_zeros(k, d.drop_last());
    }
}

proof fn lemma_zero(k: nat)
    ensures
        naming::number(digits::zeros(k)) == 0,
    decreases k,
{
    if k > 0 {
        assert(digits::zeros(k).drop_last() =~= digits::zeros((k - 1) as nat));
        lemma_zero((k - 1) as nat);
    }
}

// ---------------------------------------------------------------------------------------------
// Lines.
// ---------------------------------------------------------------------------------------------

proof fn lemma_within(a: Seq<char>, b: Seq<char>, c: Seq<char>)
    requires
        stands_in(a, b),
        stands_in(b, c),
    ensures
        stands_in(a, c),
{
    let (x, y) = choose|x: Seq<char>, y: Seq<char>| #[trigger] ((x + b) + y) == c;
    lemma_stands_in_sum(a, x, b, y);
}

proof fn lemma_fields(n: nat, item: spec_fn(int) -> Seq<char>, i: int)
    requires
        0 <= i < n,
    ensures
        stands_in(item(i), dot::fields(n, item)),
    decreases n,
{
    if n == 1 {
        assert(Seq::<char>::empty() + item(0) + Seq::<char>::empty() =~= item(0));
        lemma_stands_in(Seq::empty(), item(0), Seq::empty(), item(0));
    } else {
        let a = dot::fields((n - 1) as nat, item);
        let l = item(n - 1);
        if i == n - 1 {
            assert(a + " | "@ + l + Seq::<char>::empty() =~= a + " | "@ + l);
            lemma_stands_in(a + " | "@, l, Seq::empty(), a + " | "@ + l);
        } else {
            lemma_fields((n - 1) as nat, item, i);
            lemma_stands_in_sum(item(i), Seq::empty(), a, " | "@ + l);
            assert(Seq::<char>::empty() + a + (" | "@ + l) =~= a + " | "@ + l);
        }
    }
}

proof fn lemma_block(n: nat, item: spec_fn(int) -> Seq<char>, i: int)
    requires
        0 <= i < n,
    ensures
        stands_in(item(i), dot::block(n, item)),
{
    lemma_fields(n, item, i);
    lemma_stands_in_sum(item(i), "{ "@, dot::fields(n, item), " }"@);
}

/// The line of a node has a field for each of its outputs with its number and its name, and one for
/// each of its inputs with its number, its name and what it is bound to.
pub proof fn law_dot_fields(id: nat, n: NodeModel, i: int)
    ensures
        0 <= i < n.output_names.len() ==> stands_in(
            "<out"@ + digits::decimal(i as nat) + "> "@ + dot::escaped(n.output_names[i]),
            dot::node_line(id, n),
        ),
        0 <= i < n.input_names.len() ==> stands_in(
            "<in"@ + digits::decimal(i as nat) + "> "@ + dot::escaped(
                match n.inputs[i] {
                    Some(BindingModel::External { .. }) => n.input_names[i] + " (external)"@,
                    Some(BindingModel::FromNode { node, output, .. }) => n.input_names[i] + " <- "@
                        + digits::decimal(node.0 as nat) + "."@ + output,
                    None => n.input_names[i] + " (unbound)"@,
                },
            ),
            dot::node_line(id, n),
        ),
{
    let ins = dot::block(n.input_names.len(), dot::input_field(n));
    let outs = dot::block(n.output_names.len(), dot::output_field(n));
    let center = dot::escaped(dot::head_text(id, n.kind));
    let label = dot::label_text(id, n);
    let line = dot::node_line(id, n);
    let head = "  n"@ + digits::decimal(id) + " [label=\""@;
    assert(line == head + label + "\"];\n"@);
    lemma_stands_in(head, label, "\"];\n"@, line);
    if 0 <= i < n.output_names.len() {
        let part = dot::output_field(n)(i);
        lemma_block(n.output_names.len(), dot::output_field(n), i);
        if n.input_names.len() == 0 {
            lemma_stands_in_sum(part, "{ "@ + center + " | "@, outs, " }"@);
        } else {
            lemma_stands_in_sum(part, "{ "@ + ins + " | "@ + center + " | "@, outs, " }"@);
        }
        lemma_within(part, label, line);
    }
    if 0 <= i < n.input_names.len() {
        let part = dot::input_field(n)(i);
        lemma_block(n.input_names.len(), dot::input_field(n), i);
        if n.output_names.len() == 0 {
            lemma_stands_in_sum(part, "{ "@, ins, " | "@ + center + " }"@);
            assert("{ "@ + ins + (" | "@ + center + " }"@) =~= label);
        } else {
            lemma_stands_in_sum(part, "{ "@, ins, " | "@ + center + " | "@ + outs + " }"@);
            assert("{ "@ + ins + (" | "@ + center + " | "@ + outs + " }"@) =~= label);
        }
        lemma_within(part, label, line);
    }
}

proof fn lemma_lines(
    floats: Map<u64, Seq<char>>,
    p: ProgramView,
    func: FuncId,
    xs: Seq<crate::bytecode::InstrModel>,
    labels: Seq<u32>,
    n: nat,
    i: int,
)
    requires
        0 <= i < n,
    ensures
        stands_in(
            listing::line_text(floats, p, func, xs[i], labels),
            listing::lines_text(floats, p, func, xs, labels, n),
        ),
    decreases n,
{
    let a = listing::lines_text(floats, p, func, xs, labels, (n - 1) as nat);
    let l = listing::line_text(floats, p, func, xs[n - 1], labels);
    if i == n - 1 {
        assert(a + l + Seq::<char>::empty() =~= a + l);
        lemma_stands_in(a, l, Seq::empty(), a + l);
    } else {
        lemma_lines(floats, p, func, xs, labels, (n - 1) as nat, i);
        lemma_stands_in_sum(
            listing::line_text(floats, p, func, xs[i], labels),
            Seq::empty(),
            a,
            l,
        );
        assert(Seq::<char>::empty() + a + l =~= a + l);
    }
}

proof fn lemma_functions(floats: Map<u64, Seq<char>>, p: ProgramView, n: nat, f: u32)
    requires
        f < n <= u32::MAX,
    ensures
        stands_in(
            listing::function_text(floats, p, FuncId(f)),
            listing::functions_text(floats, p, n),
        ),
    decreases n,
{
    let a = listing::functions_text(floats, p, (n - 1) as nat);
    let sep = if n == 1 {
        Seq::<char>::empty()
    } else {
        "\n"@
    };
    let l = listing::function_text(floats, p, FuncId((n - 1) as u32));
    if f == n - 1 {
        assert(a + sep + l + Seq::<char>::empty() =~= a + sep + l);
        lemma_stands_in(a + sep, l, Seq::empty(), a + sep + l);
    } else {
        lemma_functions(floats, p, (n - 1) as nat, f);
        lemma_stands_in_sum(
            listing::function_text(floats, p, FuncId(f)),
            Seq::empty(),
            a,
            sep + l,
        );
        assert(Seq::<char>::empty() + a + (sep + l) =~= a + sep + l);
    }
}

/// The listing of a program has every function, and the listing of a function that can be read has
/// the line of every instruction.
pub proof fn law_listing_complete(
    floats: Map<u64, Seq<char>>,
    p: ProgramView,
    f: u32,
    xs: Seq<crate::bytecode::InstrModel>,
    i: int,
)
    requires
        f < p.functions.len() <= u32::MAX,
    ensures
        stands_in(
            listing::function_text(floats, p, FuncId(f)),
            listing::program_text(floats, p),
        ),
        disasm::function_code(p, f) == Ok::<
            Seq<crate::bytecode::InstrModel>,
            disasm::DisasmError,
        >(xs) && 0 <= i < xs.len() ==> stands_in(
            listing::line_text(floats, p, FuncId(f), xs[i], listing::labels_of(xs)),
            listing::function_text(floats, p, FuncId(f)),
        ),
{
    lemma_functions(floats, p, p.functions.len(), f);
    let all = listing::functions_text(floats, p, p.functions.len());
    let text = listing::program_text(floats, p);
    let head = match disasm::chars_of(p.symbol_opt(p.program_name)) {
        Some(name) => "; program=\""@ + name + "\"\n\n"@,
        None => Seq::<char>::empty(),
    };
    lemma_stands_in_sum(
        listing::function_text(floats, p, FuncId(f)),
        head,
        all,
        Seq::empty(),
    );
    assert(head + all + Seq::<char>::empty() =~= text);
    if disasm::function_code(p, f) == Ok::<
        Seq<crate::bytecode::InstrModel>,
        disasm::DisasmError,
    >(xs) && 0 <= i < xs.len() {
        reveal(listing::function_text);
        let labels = listing::labels_of(xs);
        lemma_lines(floats, p, FuncId(f), xs, labels, xs.len(), i);
        let body = listing::lines_text(floats, p, FuncId(f), xs, labels, xs.len());
        let top = listing::head_text(p, FuncId(f));
        lemma_stands_in_sum(
            listing::line_text(floats, p, FuncId(f), xs[i], labels),
            top,
            body,
            Seq::empty(),
        );
        assert(top + body + Seq::<char>::empty() =~= top + body);
    }
}

} // verus!
