//! How the outputs of nodes get their names.

use vstd::prelude::*;
use vstd::utf8::*;

use crate::builder;
use crate::digits;
use crate::dirty::DirtyKey;
use crate::flow::{lemma_names, names};
use crate::graph_model;
use crate::graph_model::{GraphView, KindModel};
use crate::pack;
use crate::program;
use crate::program::{FunctionOutputNameEntry, SymbolId};
use crate::value::FuncId;
use crate::verify::VerifiedView;

verus! {

/// Entry `j` is the first that names an output.
pub open spec fn first_name(
    entries: Seq<FunctionOutputNameEntry>,
    func: u32,
    ret: u32,
    j: int,
) -> bool {
    &&& 0 <= j < entries.len()
    &&& entries[j].func == func
    &&& entries[j].ret == ret
    &&& forall|k: int|
        0 <= k < j ==> !((#[trigger] entries[k]).func == func && entries[k].ret == ret)
}

/// No entry names an output.
pub open spec fn no_name(entries: Seq<FunctionOutputNameEntry>, func: u32, ret: u32) -> bool {
    forall|k: int|
        0 <= k < entries.len() ==> !((#[trigger] entries[k]).func == func && entries[k].ret == ret)
}

proof fn lemma_first_name(entries: Seq<FunctionOutputNameEntry>, func: u32, ret: u32, j: int)
    requires
        first_name(entries, func, ret, j),
    ensures
        program::output_name_in(entries, func, ret) == Some(entries[j].name),
    decreases entries.len(),
{
    if j > 0 {
        let rest = entries.drop_first();
        assert(!(entries[0].func == func && entries[0].ret == ret));
        assert forall|k: int| 0 <= k < j - 1 implies !((#[trigger] rest[k]).func == func
            && rest[k].ret == ret) by {
            assert(rest[k] == entries[k + 1]);
        }
        lemma_first_name(rest, func, ret, j - 1);
    }
}

proof fn lemma_no_name(entries: Seq<FunctionOutputNameEntry>, func: u32, ret: u32)
    requires
        no_name(entries, func, ret),
    ensures
        program::output_name_in(entries, func, ret) is None,
    decreases entries.len(),
{
    if entries.len() > 0 {
        let rest = entries.drop_first();
        assert(!(entries[0].func == func && entries[0].ret == ret));
        assert forall|k: int| 0 <= k < rest.len() implies !((#[trigger] rest[k]).func == func
            && rest[k].ret == ret) by {
            assert(rest[k] == entries[k + 1]);
        }
        lemma_no_name(rest, func, ret);
    }
}

/// The number that decimal digits stand for.
pub open spec fn number(s: Seq<char>) -> int
    decreases s.len(),
{
    if s.len() == 0 {
        0
    } else {
        10 * number(s.drop_last()) + (s.last() as int - '0' as int)
    }
}

/// Text is decimal digits, without a zero before others.
pub open spec fn is_number(s: Seq<char>) -> bool {
    &&& s.len() > 0
    &&& forall|k: int| 0 <= k < s.len() ==> '0' <= (#[trigger] s[k]) <= '9'
    &&& s.len() > 1 ==> s[0] != '0'
}

/// A number in decimal is digits that stand for it.
pub proof fn law_decimal(n: nat)
    ensures
        is_number(digits::decimal(n)),
        number(digits::decimal(n)) == n,
        n > 0 ==> digits::decimal(n)[0] != '0',
    decreases n,
{
    reveal_with_fuel(number, 2);
    if n < 10 {
        assert(digits::decimal(n).drop_last() =~= Seq::empty());
    } else {
        law_decimal(n / 10);
        let d = digits::decimal(n / 10);
        assert(digits::decimal(n).drop_last() =~= d);
        assert forall|k: int| 0 <= k < digits::decimal(n).len() implies '0' <= (
        #[trigger] digits::decimal(n)[k]) <= '9' by {
            if k < d.len() {
                assert(digits::decimal(n)[k] == d[k]);
            }
        }
        assert(digits::decimal(n)[0] == d[0]);
    }
}

/// A number with a sign is the digits of its absolute value, behind a minus where it is negative.
pub proof fn law_signed(i: int)
    ensures
        i >= 0 ==> is_number(digits::signed(i)) && number(digits::signed(i)) == i,
        i < 0 ==> digits::signed(i).len() > 1 && digits::signed(i)[0] == '-' && is_number(
            digits::signed(i).drop_first(),
        ) && number(digits::signed(i).drop_first()) == -i,
{
    if i >= 0 {
        law_decimal(i as nat);
    } else {
        law_decimal((-i) as nat);
        assert(digits::signed(i).drop_first() =~= digits::decimal((-i) as nat));
    }
}

/// The number that hexadecimal digits stand for.
pub open spec fn hex_number(s: Seq<char>) -> int
    decreases s.len(),
{
    if s.len() == 0 {
        0
    } else {
        16 * hex_number(s.drop_last()) + if s.last() <= '9' {
            s.last() as int - '0' as int
        } else if s.last() <= 'F' {
            s.last() as int - 'A' as int + 10
        } else {
            s.last() as int - 'a' as int + 10
        }
    }
}

/// A number in hexadecimal is digits that stand for it.
pub proof fn law_hex(n: nat)
    ensures
        hex_number(digits::hex(n)) == n,
    decreases n,
{
    reveal_with_fuel(hex_number, 2);
    if n < 16 {
        assert(digits::hex(n).drop_last() =~= Seq::empty());
    } else {
        law_hex(n / 16);
        assert(digits::hex(n).drop_last() =~= digits::hex(n / 16));
    }
}

/// A number of a fixed width in hexadecimal has that many digits, which stand for it where it fits.
pub proof fn law_hex_wide(n: nat, width: nat)
    ensures
        digits::hex_wide(n, width).len() == width,
        hex_number(digits::hex_wide(n, width)) == n % (vstd::arithmetic::power::pow(
            16,
            width,
        ) as nat),
    decreases width,
{
    reveal(vstd::arithmetic::power::pow);
    if width > 0 {
        let p = vstd::arithmetic::power::pow(16, (width - 1) as nat);
        vstd::arithmetic::power::lemma_pow_positive(16, (width - 1) as nat);
        law_hex_wide(n / 16, (width - 1) as nat);
        assert(digits::hex_wide(n, width).drop_last() =~= digits::hex_wide(
            n / 16,
            (width - 1) as nat,
        ));
        vstd::arithmetic::div_mod::lemma_mod_breakdown(n as int, 16, p);
    } else {
        assert(n % 1 == 0);
    }
}

/// For every output of the entry function that the program names with anything but `ret`, the new
/// node has an output of just that name in its place. An output without a name, or with the name
/// `ret`, is named `ret` and its number. There are as many outputs as the function returns values.
pub proof fn law_node_outputs_named(
    g: GraphView,
    vp: VerifiedView,
    entry: FuncId,
    input_names: Seq<Seq<char>>,
    ids: Seq<DirtyKey>,
    i: int,
    j: int,
    before: Seq<char>,
    name: Seq<char>,
    behind: Seq<char>,
)
    requires
        entry.0 < vp.program.functions.len(),
        0 <= i < vp.program.functions[entry.0 as int].ret_count,
    ensures
        ({
            let p = vp.program;
            let node = g.with_node(
                KindModel::Tape { program: vp, entry },
                input_names,
                graph_model::output_labels(p, entry),
                ids,
            ).nodes.last();
            let id = p.function_output_names[j].name;
            let named = first_name(p.function_output_names, entry.0, i as u32, j) && id.0
                < p.symbols.len() && names(
                p.symbol_data,
                p.symbols[id.0 as int].bytes,
                before,
                name,
                behind,
            );
            let numbered = node.output_names[i].len() > 3 && node.output_names[i].take(3)
                == "ret"@ && is_number(node.output_names[i].skip(3)) && number(
                node.output_names[i].skip(3),
            ) == i;
            &&& node.output_names.len() == p.functions[entry.0 as int].ret_count
            &&& node.input_names == input_names
            &&& named && name != "ret"@ ==> node.output_names[i] == name
            &&& named && name == "ret"@ ==> numbered
            &&& no_name(p.function_output_names, entry.0, i as u32) ==> numbered
        }),
{
    let p = vp.program;
    let id = p.function_output_names[j].name;
    if first_name(p.function_output_names, entry.0, i as u32, j) {
        lemma_first_name(p.function_output_names, entry.0, i as u32, j);
        if id.0 < p.symbols.len() && names(
            p.symbol_data,
            p.symbols[id.0 as int].bytes,
            before,
            name,
            behind,
        ) {
            lemma_names(p.symbol_data, p.symbols[id.0 as int].bytes, before, name, behind);
            encode_utf8_decode_utf8(name);
        }
    }
    if no_name(p.function_output_names, entry.0, i as u32) {
        lemma_no_name(p.function_output_names, entry.0, i as u32);
    }
    law_decimal(i as nat);
    reveal_strlit("ret");
    let n = "ret"@ + digits::decimal(i as nat);
    assert(n.take(3) =~= "ret"@);
    assert(n.skip(3) =~= digits::decimal(i as nat));
}

proof fn lemma_position_of(
    entries: Seq<FunctionOutputNameEntry>,
    func: u32,
    ret: u32,
    name: SymbolId,
) -> (j: int)
    ensures
        first_name(builder::set_output(entries, func, ret, name), func, ret, j),
        builder::set_output(entries, func, ret, name)[j].name == name,
        forall|k: int|
            0 <= k < entries.len() && !((#[trigger] entries[k]).func == func && entries[k].ret
                == ret) ==> builder::set_output(entries, func, ret, name)[k] == entries[k],
{
    let keys = entries.map_values(|e: FunctionOutputNameEntry| (e.func, e.ret));
    pack::lemma_position_found(keys, (func, ret));
    let i = pack::position(keys, (func, ret)) as int;
    let set = builder::set_output(entries, func, ret, name);
    assert forall|k: int| 0 <= k < i implies !((#[trigger] set[k]).func == func && set[k].ret
        == ret) by {
        assert(keys[k] != (func, ret));
    }
    if i < entries.len() {
        assert(keys[i] == (func, ret));
    }
    i
}

/// A name that is set for an output is the one that is found for it, and the names of other outputs
/// stay what they were.
pub proof fn law_output_name_set(
    entries: Seq<FunctionOutputNameEntry>,
    func: u32,
    ret: u32,
    name: SymbolId,
    func2: u32,
    ret2: u32,
)
    ensures
        program::output_name_in(builder::set_output(entries, func, ret, name), func, ret) == Some(
            name,
        ),
        (func2, ret2) != (func, ret) ==> program::output_name_in(
            builder::set_output(entries, func, ret, name),
            func2,
            ret2,
        ) == program::output_name_in(entries, func2, ret2),
{
    let j = lemma_position_of(entries, func, ret, name);
    let set = builder::set_output(entries, func, ret, name);
    lemma_first_name(set, func, ret, j);
    if (func2, ret2) != (func, ret) {
        if no_name(entries, func2, ret2) {
            lemma_no_name(entries, func2, ret2);
            assert forall|k: int| 0 <= k < set.len() implies !((#[trigger] set[k]).func == func2
                && set[k].ret == ret2) by {
                if k < entries.len() {
                    assert(!(entries[k].func == func2 && entries[k].ret == ret2));
                }
            }
            lemma_no_name(set, func2, ret2);
        } else {
            let k = choose|k: int|
                0 <= k < entries.len() && (#[trigger] entries[k]).func == func2 && entries[k].ret
                    == ret2;
            let f = lemma_least(entries, func2, ret2, k);
            lemma_first_name(entries, func2, ret2, f);
            assert(set[f] == entries[f]);
            assert forall|m: int| 0 <= m < f implies !((#[trigger] set[m]).func == func2
                && set[m].ret == ret2) by {
                assert(!(entries[m].func == func2 && entries[m].ret == ret2));
            }
            lemma_first_name(set, func2, ret2, f);
        }
    }
}

proof fn lemma_least(entries: Seq<FunctionOutputNameEntry>, func: u32, ret: u32, k: int) -> (f: int)
    requires
        0 <= k < entries.len(),
        entries[k].func == func,
        entries[k].ret == ret,
    ensures
        first_name(entries, func, ret, f),
    decreases k,
{
    if forall|m: int|
        0 <= m < k ==> !((#[trigger] entries[m]).func == func && entries[m].ret == ret) {
        k
    } else {
        let m = choose|m: int|
            0 <= m < k && (#[trigger] entries[m]).func == func && entries[m].ret == ret;
        lemma_least(entries, func, ret, m)
    }
}

} // verus!
