//! What a builder was told is what the program says.

use vstd::prelude::*;
use vstd::utf8::*;

use crate::assembler::Asm;
use crate::builder;
use crate::builder::{BuildError, BuilderView, FunctionSig, ProgramBuilder};
use crate::flow::{in_range, lemma_names, names, part};
use crate::graph_model;
use crate::host;
use crate::host::HostSig;
use crate::naming;
use crate::pack;
use crate::program;
use crate::program::{
    Const, ConstEntry, ConstId, ElemTypeId, FunctionNameEntry, HostSigId, LabelNameEntry,
    StructTypeDef, SymbolId, TypeId, ValueType,
};
use crate::roundtrip;
use crate::text;
use crate::value::FuncId;

verus! {

// ---------------------------------------------------------------------------------------------
// Tables.
// ---------------------------------------------------------------------------------------------

/// A table has a value under an id, and what it had before it still has.
pub open spec fn kept_with<T>(before: Seq<T>, after: Seq<T>, id: u32, x: T) -> bool {
    &&& id < after.len()
    &&& after[id as int] == x
    &&& before.len() <= after.len() <= before.len() + 1
    &&& after.take(before.len() as int) == before
    &&& before.contains(x) ==> after == before
}

proof fn lemma_kept<T>(s: Seq<T>, x: T)
    requires
        s.len() < u32::MAX,
    ensures
        kept_with(s, builder::interned(s, x), builder::intern_id(s, x), x),
{
    pack::lemma_position_found(s, x);
    let t = builder::interned(s, x);
    assert(t.take(s.len() as int) =~= s);
}

/// An id that the builder gives for a symbol, a constant, a type or a host signature is that of what
/// was asked for, and every other id stays what it was.
pub proof fn law_ids(
    text: &str,
    c: Const,
    elem: ValueType,
    st: StructTypeDef,
    symbol: SymbolId,
    sig: HostSig,
)
    ensures
        forall|m: &mut ProgramBuilder, id: SymbolId| #[trigger]
            call_ensures(ProgramBuilder::symbol, (m, text), id) && (*m)@.symbols.len() < u32::MAX
                ==> kept_with((*m)@.symbols, (*final(m))@.symbols, id.0, text@) && (*final(m))@
                == (BuilderView { symbols: (*final(m))@.symbols, ..(*m)@ }),
        forall|m: &mut ProgramBuilder, id: ConstId| #[trigger]
            call_ensures(ProgramBuilder::constant, (m, c), id) && (*m)@.consts.len() < u32::MAX
                ==> kept_with((*m)@.consts, (*final(m))@.consts, id.0, c.model()) && (*final(m))@
                == (BuilderView { consts: (*final(m))@.consts, ..(*m)@ }),
        forall|m: &mut ProgramBuilder, id: ElemTypeId| #[trigger]
            call_ensures(ProgramBuilder::array_elem, (m, elem), id) && (*m)@.array_elems.len()
                < u32::MAX ==> kept_with(
                (*m)@.array_elems,
                (*final(m))@.array_elems,
                id.0,
                elem,
            ) && (*final(m))@ == (BuilderView { array_elems: (*final(m))@.array_elems, ..(*m)@ }),
        forall|m: &mut ProgramBuilder, id: TypeId| #[trigger]
            call_ensures(ProgramBuilder::struct_type, (m, st), id) && (*m)@.structs.len()
                < u32::MAX ==> kept_with(
                (*m)@.structs,
                (*final(m))@.structs,
                id.0,
                builder::struct_def(st),
            ) && (*final(m))@ == (BuilderView { structs: (*final(m))@.structs, ..(*m)@ }),
        forall|m: &mut ProgramBuilder, id: HostSigId| #[trigger]
            call_ensures(ProgramBuilder::host_sig, (m, symbol, sig), id) && (*m)@.host_sigs.len()
                < u32::MAX ==> {
                let v = (*final(m))@;
                &&& v == (BuilderView { host_sigs: v.host_sigs, ..(*m)@ })
                &&& id.0 < v.host_sigs.len()
                &&& v.host_sigs[id.0 as int].symbol == symbol
                &&& v.host_sigs[id.0 as int].args == sig.args@
                &&& v.host_sigs[id.0 as int].rets == sig.rets@
                &&& v.host_sigs[id.0 as int].sig_hash == host::spec_sig_hash(sig.args@, sig.rets@)
                &&& v.host_sigs.take((*m)@.host_sigs.len() as int) == (*m)@.host_sigs
            },
{
    assert forall|m: &mut ProgramBuilder, id: SymbolId| #[trigger]
        call_ensures(ProgramBuilder::symbol, (m, text), id) && (*m)@.symbols.len()
            < u32::MAX implies kept_with((*m)@.symbols, (*final(m))@.symbols, id.0, text@)
        && (*final(m))@ == (BuilderView { symbols: (*final(m))@.symbols, ..(*m)@ }) by {
        lemma_kept((*m)@.symbols, text@);
    }
    assert forall|m: &mut ProgramBuilder, id: ConstId| #[trigger]
        call_ensures(ProgramBuilder::constant, (m, c), id) && (*m)@.consts.len()
            < u32::MAX implies kept_with((*m)@.consts, (*final(m))@.consts, id.0, c.model())
        && (*final(m))@ == (BuilderView { consts: (*final(m))@.consts, ..(*m)@ }) by {
        lemma_kept((*m)@.consts, c.model());
    }
    assert forall|m: &mut ProgramBuilder, id: ElemTypeId| #[trigger]
        call_ensures(ProgramBuilder::array_elem, (m, elem), id) && (*m)@.array_elems.len()
            < u32::MAX implies kept_with(
        (*m)@.array_elems,
        (*final(m))@.array_elems,
        id.0,
        elem,
    ) && (*final(m))@ == (BuilderView { array_elems: (*final(m))@.array_elems, ..(*m)@ }) by {
        lemma_kept((*m)@.array_elems, elem);
    }
    assert forall|m: &mut ProgramBuilder, id: TypeId| #[trigger]
        call_ensures(ProgramBuilder::struct_type, (m, st), id) && (*m)@.structs.len()
            < u32::MAX implies kept_with(
        (*m)@.structs,
        (*final(m))@.structs,
        id.0,
        builder::struct_def(st),
    ) && (*final(m))@ == (BuilderView { structs: (*final(m))@.structs, ..(*m)@ }) by {
        lemma_kept((*m)@.structs, builder::struct_def(st));
    }
    assert forall|m: &mut ProgramBuilder, id: HostSigId| #[trigger]
        call_ensures(ProgramBuilder::host_sig, (m, symbol, sig), id) && (*m)@.host_sigs.len()
            < u32::MAX implies {
        let v = (*final(m))@;
        &&& v == (BuilderView { host_sigs: v.host_sigs, ..(*m)@ })
        &&& id.0 < v.host_sigs.len()
        &&& v.host_sigs[id.0 as int].symbol == symbol
        &&& v.host_sigs[id.0 as int].args == sig.args@
        &&& v.host_sigs[id.0 as int].rets == sig.rets@
        &&& v.host_sigs[id.0 as int].sig_hash == host::spec_sig_hash(sig.args@, sig.rets@)
        &&& v.host_sigs.take((*m)@.host_sigs.len() as int) == (*m)@.host_sigs
    } by {
        lemma_kept((*m)@.host_sigs, builder::sig_model(symbol, sig));
    }
}

// ---------------------------------------------------------------------------------------------
// Names.
// ---------------------------------------------------------------------------------------------

proof fn lemma_function_name(entries: Seq<FunctionNameEntry>, func: u32, i: int)
    requires
        0 <= i < entries.len(),
        entries[i].func == func,
        forall|k: int| 0 <= k < i ==> (#[trigger] entries[k]).func != func,
    ensures
        program::function_name_in(entries, func) == Some(entries[i].name),
    decreases entries.len(),
{
    if i > 0 {
        assert(entries[0].func != func);
        let rest = entries.drop_first();
        assert forall|k: int| 0 <= k < i - 1 implies (#[trigger] rest[k]).func != func by {
            assert(rest[k] == entries[k + 1]);
        }
        lemma_function_name(rest, func, i - 1);
    }
}

proof fn lemma_label_name(entries: Seq<LabelNameEntry>, func: u32, pc: u32, i: int)
    requires
        0 <= i < entries.len(),
        entries[i].func == func,
        entries[i].pc == pc,
        forall|k: int| 0 <= k < i ==> !((#[trigger] entries[k]).func == func
            && entries[k].pc == pc),
    ensures
        program::label_name_in(entries, func, pc) == Some(entries[i].name),
    decreases entries.len(),
{
    if i > 0 {
        assert(!(entries[0].func == func && entries[0].pc == pc));
        let rest = entries.drop_first();
        assert forall|k: int| 0 <= k < i - 1 implies !((#[trigger] rest[k]).func == func
            && rest[k].pc == pc) by {
            assert(rest[k] == entries[k + 1]);
        }
        lemma_label_name(rest, func, pc, i - 1);
    }
}

proof fn lemma_set_function(entries: Seq<FunctionNameEntry>, func: u32, name: SymbolId)
    ensures
        program::function_name_in(builder::set_function(entries, func, name), func) == Some(name),
{
    let keys = entries.map_values(|e: FunctionNameEntry| e.func);
    pack::lemma_position_found(keys, func);
    let i = pack::position(keys, func) as int;
    let set = builder::set_function(entries, func, name);
    assert forall|k: int| 0 <= k < i implies (#[trigger] set[k]).func != func by {
        assert(keys[k] != func);
    }
    lemma_function_name(set, func, i);
}

proof fn lemma_set_label(entries: Seq<LabelNameEntry>, func: u32, pc: u32, name: SymbolId)
    ensures
        program::label_name_in(builder::set_label(entries, func, pc, name), func, pc) == Some(name),
{
    let keys = entries.map_values(|e: LabelNameEntry| (e.func, e.pc));
    pack::lemma_position_found(keys, (func, pc));
    let i = pack::position(keys, (func, pc)) as int;
    let set = builder::set_label(entries, func, pc, name);
    assert forall|k: int| 0 <= k < i implies !((#[trigger] set[k]).func == func && set[k].pc
        == pc) by {
        assert(keys[k] != (func, pc));
    }
    lemma_label_name(set, func, pc, i);
}

/// The symbol of a builder under an id is a text.
pub open spec fn says(v: BuilderView, id: SymbolId, text: Seq<char>) -> bool {
    id.0 < v.symbols.len() && v.symbols[id.0 as int] == text
}

/// A name that was set is the name that is found: of the program, of a function, of an output of a
/// function and of a position of a function.
pub proof fn law_names_set(name: &str, func: FuncId, ret: u32)
    ensures
        forall|m: &mut ProgramBuilder, id: SymbolId| #[trigger]
            call_ensures(ProgramBuilder::set_program_name, (m, name), id) && (*m)@.symbols.len()
                < u32::MAX ==> (*final(m))@.program_name == Some(id) && says(
                (*final(m))@,
                id,
                name@,
            ),
        forall|m: &mut ProgramBuilder, res: Result<SymbolId, BuildError>| #[trigger]
            call_ensures(ProgramBuilder::set_function_name, (m, func, name), res)
                && (*m)@.symbols.len() < u32::MAX ==> match res {
                Ok(id) => program::function_name_in((*final(m))@.function_names, func.0) == Some(id)
                    && says((*final(m))@, id, name@),
                Err(e) => func.0 >= (*m)@.functions.len() && (*final(m))@ == (*m)@,
            },
        forall|m: &mut ProgramBuilder, res: Result<SymbolId, BuildError>| #[trigger]
            call_ensures(ProgramBuilder::set_function_output_name, (m, func, ret, name), res)
                && (*m)@.symbols.len() < u32::MAX ==> match res {
                Ok(id) => program::output_name_in(
                    (*final(m))@.function_output_names,
                    func.0,
                    ret,
                ) == Some(id) && says((*final(m))@, id, name@),
                Err(e) => (func.0 >= (*m)@.functions.len() || ret
                    >= (*m)@.functions[func.0 as int].ret_types.len()) && (*final(m))@ == (*m)@,
            },
        forall|m: &mut ProgramBuilder, res: Result<SymbolId, BuildError>| #[trigger]
            call_ensures(ProgramBuilder::set_label_name_pc, (m, func, ret, name), res)
                && (*m)@.symbols.len() < u32::MAX ==> match res {
                Ok(id) => program::label_name_in((*final(m))@.labels, func.0, ret) == Some(id)
                    && says((*final(m))@, id, name@),
                Err(e) => func.0 >= (*m)@.functions.len() && (*final(m))@ == (*m)@,
            },
{
    assert forall|m: &mut ProgramBuilder, id: SymbolId| #[trigger]
        call_ensures(ProgramBuilder::set_program_name, (m, name), id) && (*m)@.symbols.len()
            < u32::MAX implies (*final(m))@.program_name == Some(id) && says(
        (*final(m))@,
        id,
        name@,
    ) by {
        lemma_kept((*m)@.symbols, name@);
    }
    assert forall|m: &mut ProgramBuilder, res: Result<SymbolId, BuildError>| #[trigger]
        call_ensures(ProgramBuilder::set_function_name, (m, func, name), res)
            && (*m)@.symbols.len() < u32::MAX implies match res {
        Ok(id) => program::function_name_in((*final(m))@.function_names, func.0) == Some(id)
            && says((*final(m))@, id, name@),
        Err(e) => func.0 >= (*m)@.functions.len() && (*final(m))@ == (*m)@,
    } by {
        lemma_kept((*m)@.symbols, name@);
        if let Ok(id) = res {
            lemma_set_function((*m)@.function_names, func.0, id);
        }
    }
    assert forall|m: &mut ProgramBuilder, res: Result<SymbolId, BuildError>| #[trigger]
        call_ensures(ProgramBuilder::set_function_output_name, (m, func, ret, name), res)
            && (*m)@.symbols.len() < u32::MAX implies match res {
        Ok(id) => program::output_name_in((*final(m))@.function_output_names, func.0, ret) == Some(
            id,
        ) && says((*final(m))@, id, name@),
        Err(e) => (func.0 >= (*m)@.functions.len() || ret
            >= (*m)@.functions[func.0 as int].ret_types.len()) && (*final(m))@ == (*m)@,
    } by {
        lemma_kept((*m)@.symbols, name@);
        if let Ok(id) = res {
            naming::law_output_name_set((*m)@.function_output_names, func.0, ret, id, func.0, ret);
        }
    }
    assert forall|m: &mut ProgramBuilder, res: Result<SymbolId, BuildError>| #[trigger]
        call_ensures(ProgramBuilder::set_label_name_pc, (m, func, ret, name), res)
            && (*m)@.symbols.len() < u32::MAX implies match res {
        Ok(id) => program::label_name_in((*final(m))@.labels, func.0, ret) == Some(id) && says(
            (*final(m))@,
            id,
            name@,
        ),
        Err(e) => func.0 >= (*m)@.functions.len() && (*final(m))@ == (*m)@,
    } by {
        lemma_kept((*m)@.symbols, name@);
        if let Ok(id) = res {
            lemma_set_label((*m)@.labels, func.0, ret, id);
        }
    }
}

/// Texts, one behind the other.
pub open spec fn all_text(symbols: Seq<Seq<char>>) -> Seq<char>
    decreases symbols.len(),
{
    if symbols.len() == 0 {
        seq![]
    } else {
        all_text(symbols.drop_last()) + symbols.last()
    }
}

proof fn lemma_all_text(symbols: Seq<Seq<char>>)
    ensures
        pack::pack_symbols(symbols).data == encode_utf8(all_text(symbols)),
        pack::pack_symbols(symbols).entries.len() == symbols.len(),
    decreases symbols.len(),
{
    if symbols.len() > 0 {
        lemma_all_text(symbols.drop_last());
        text::lemma_utf8_concat(all_text(symbols.drop_last()), symbols.last());
    }
}

proof fn lemma_symbol_place(symbols: Seq<Seq<char>>, k: int) -> (sides: (Seq<char>, Seq<char>))
    requires
        0 <= k < symbols.len(),
        pack::pack_symbols(symbols).data.len() <= u32::MAX,
    ensures
        names(
            pack::pack_symbols(symbols).data,
            pack::pack_symbols(symbols).entries[k].bytes,
            sides.0,
            symbols[k],
            sides.1,
        ),
    decreases symbols.len(),
{
    let shorter = symbols.drop_last();
    lemma_all_text(symbols);
    lemma_all_text(shorter);
    text::lemma_utf8_concat(all_text(shorter), symbols.last());
    if k == symbols.len() - 1 {
        assert(all_text(shorter) + symbols.last() + Seq::<char>::empty() =~= all_text(symbols));
        (all_text(shorter), Seq::empty())
    } else {
        let (a, b) = lemma_symbol_place(shorter, k);
        assert(all_text(shorter) =~= a + symbols[k] + b) by {
            text::lemma_utf8_injective(all_text(shorter), a + symbols[k] + b);
        }
        assert(a + symbols[k] + (b + symbols.last()) =~= all_text(symbols));
        (a, b + symbols.last())
    }
}

/// The program that is built has the text of every symbol.
pub proof fn law_built_symbols(v: BuilderView, id: SymbolId, name: Seq<char>)
    requires
        says(v, id, name),
        v.packed().symbol_data.len() <= u32::MAX,
    ensures
        v.packed().symbol(id) == Ok::<Seq<u8>, crate::wire::DecodeError>(encode_utf8(name)),
{
    let (a, b) = lemma_symbol_place(v.symbols, id.0 as int);
    lemma_all_text(v.symbols);
    lemma_names(
        v.packed().symbol_data,
        v.packed().symbols[id.0 as int].bytes,
        a,
        name,
        b,
    );
}

/// The name that was set for an output of a function, if it is any but `ret`, is the name that the
/// output has in a graph.
pub proof fn law_set_name_names_output(v: BuilderView, func: FuncId, ret: u32, id: SymbolId,
    name: Seq<char>)
    requires
        func.0 < v.functions.len(),
        ret < v.functions[func.0 as int].ret_types.len(),
        program::output_name_in(v.function_output_names, func.0, ret) == Some(id),
        says(v, id, name),
        name != "ret"@,
        v.packed().symbol_data.len() <= u32::MAX,
        roundtrip::functions_fit(
            pack::pack_functions(pack::pack_host_sigs(v.host_sigs).value_types, v.functions),
        ),
    ensures
        graph_model::output_labels(v.packed(), func).len()
            == v.functions[func.0 as int].ret_types.len(),
        graph_model::output_labels(v.packed(), func)[ret as int] == name,
{
    law_built_symbols(v, id, name);
    roundtrip::lemma_function_slice(
        pack::pack_host_sigs(v.host_sigs).value_types,
        v.functions,
        func.0 as int,
    );
    encode_utf8_decode_utf8(name);
}

// ---------------------------------------------------------------------------------------------
// Functions.
// ---------------------------------------------------------------------------------------------

/// A declared function has the types and the number of registers of its signature and no body yet,
/// and its id is the number of functions before it. A defined one has the code and the spans of its
/// assembler, and keeps its types; the other functions stay.
pub proof fn law_functions(sig: FunctionSig, func: FuncId, a: Asm)
    ensures
        forall|m: &mut ProgramBuilder, id: FuncId| #[trigger]
            call_ensures(ProgramBuilder::declare_function, (m, sig), id)
                && (*m)@.functions.len() <= u32::MAX ==> {
                let v = (*final(m))@;
                let n = (*m)@.functions.len() as int;
                &&& id.0 == n
                &&& v.functions.len() == n + 1
                &&& v.functions.take(n) == (*m)@.functions
                &&& v.functions[n].arg_types == sig.arg_types@
                &&& v.functions[n].ret_types == sig.ret_types@
                &&& v.functions[n].reg_count == sig.reg_count
                &&& v.functions[n].bytecode.len() == 0
            },
        forall|m: &mut ProgramBuilder, res: Result<(), BuildError>| #[trigger]
            call_ensures(ProgramBuilder::define_function, (m, func, a), res) && res is Ok ==> {
                let v = (*final(m))@;
                let old = (*m)@;
                &&& func.0 < old.functions.len()
                &&& v.functions.len() == old.functions.len()
                &&& v.functions[func.0 as int].bytecode == a@.assembled()
                &&& v.functions[func.0 as int].spans == a@.span_table()
                &&& v.functions[func.0 as int].arg_types == old.functions[func.0 as int].arg_types
                &&& v.functions[func.0 as int].ret_types == old.functions[func.0 as int].ret_types
                &&& v.functions[func.0 as int].reg_count == old.functions[func.0 as int].reg_count
                &&& forall|k: int|
                    0 <= k < old.functions.len() && k != func.0 ==> (#[trigger] v.functions[k])
                        == old.functions[k]
                &&& v.consts == old.consts
                &&& v.host_sigs == old.host_sigs
                &&& v.structs == old.structs
                &&& v.array_elems == old.array_elems
            },
{
    assert forall|m: &mut ProgramBuilder, id: FuncId| #[trigger]
        call_ensures(ProgramBuilder::declare_function, (m, sig), id) && (*m)@.functions.len()
            <= u32::MAX implies {
        let v = (*final(m))@;
        let n = (*m)@.functions.len() as int;
        &&& id.0 == n
        &&& v.functions.len() == n + 1
        &&& v.functions.take(n) == (*m)@.functions
        &&& v.functions[n].arg_types == sig.arg_types@
        &&& v.functions[n].ret_types == sig.ret_types@
        &&& v.functions[n].reg_count == sig.reg_count
        &&& v.functions[n].bytecode.len() == 0
    } by {
        let n = (*m)@.functions.len() as int;
        assert((*final(m))@.functions.take(n) =~= (*m)@.functions);
    }
    assert forall|m: &mut ProgramBuilder, res: Result<(), BuildError>| #[trigger]
        call_ensures(ProgramBuilder::define_function, (m, func, a), res) && res is Ok implies {
        let v = (*final(m))@;
        let old = (*m)@;
        &&& func.0 < old.functions.len()
        &&& v.functions.len() == old.functions.len()
        &&& v.functions[func.0 as int].bytecode == a@.assembled()
        &&& v.functions[func.0 as int].spans == a@.span_table()
        &&& v.functions[func.0 as int].arg_types == old.functions[func.0 as int].arg_types
        &&& v.functions[func.0 as int].ret_types == old.functions[func.0 as int].ret_types
        &&& v.functions[func.0 as int].reg_count == old.functions[func.0 as int].reg_count
        &&& forall|k: int|
            0 <= k < old.functions.len() && k != func.0 ==> (#[trigger] v.functions[k])
                == old.functions[k]
        &&& v.consts == old.consts
        &&& v.host_sigs == old.host_sigs
        &&& v.structs == old.structs
        &&& v.array_elems == old.array_elems
    } by {
        let v = (*m)@.with_body(func.0, a@.assembled(), a@.span_table());
        lemma_labels_keep(v, func.0, a@.named_labels());
    }
}

proof fn lemma_labels_keep(v: BuilderView, func: u32, labels: Seq<(u32, Seq<char>)>)
    ensures
        v.with_labels(func, labels).functions == v.functions,
        v.with_labels(func, labels).consts == v.consts,
        v.with_labels(func, labels).host_sigs == v.host_sigs,
        v.with_labels(func, labels).structs == v.structs,
        v.with_labels(func, labels).array_elems == v.array_elems,
    decreases labels.len(),
{
    if labels.len() > 0 {
        lemma_labels_keep(v, func, labels.drop_last());
    }
}

/// The program that is built has each function with its types, its number of registers, its code and
/// its spans, and each host signature with its symbol, its hash and its types.
pub proof fn law_built_functions(v: BuilderView, f: int, h: int)
    requires
        roundtrip::functions_fit(
            pack::pack_functions(pack::pack_host_sigs(v.host_sigs).value_types, v.functions),
        ),
    ensures
        ({
            let p = v.packed();
            &&& 0 <= f < v.functions.len() ==> {
                let e = p.functions[f];
                &&& p.functions.len() == v.functions.len()
                &&& e.arg_count == v.functions[f].arg_types.len()
                &&& e.ret_count == v.functions[f].ret_types.len()
                &&& e.reg_count == v.functions[f].reg_count
                &&& in_range(p.value_types, e.arg_types) && part(p.value_types, e.arg_types)
                    == v.functions[f].arg_types
                &&& in_range(p.value_types, e.ret_types) && part(p.value_types, e.ret_types)
                    == v.functions[f].ret_types
                &&& in_range(p.bytecode_data, e.bytecode) && part(p.bytecode_data, e.bytecode)
                    == v.functions[f].bytecode
                &&& in_range(p.spans, e.spans) && part(p.spans, e.spans) == v.functions[f].spans
            }
            &&& 0 <= h < v.host_sigs.len() ==> {
                let e = p.host_sigs[h];
                &&& p.host_sigs.len() == v.host_sigs.len()
                &&& e.symbol == v.host_sigs[h].symbol
                &&& e.sig_hash == v.host_sigs[h].sig_hash
                &&& in_range(p.value_types, e.args) && part(p.value_types, e.args)
                    == v.host_sigs[h].args
                &&& in_range(p.value_types, e.rets) && part(p.value_types, e.rets)
                    == v.host_sigs[h].rets
            }
        }),
{
    let a = pack::pack_host_sigs(v.host_sigs).value_types;
    if 0 <= f < v.functions.len() {
        roundtrip::lemma_function_slice(a, v.functions, f);
    }
    lemma_types_prefix(a, v.functions);
    if 0 <= h < v.host_sigs.len() {
        roundtrip::lemma_host_sig_slice(v.host_sigs, h);
        let e = v.packed().host_sigs[h];
        let all = v.packed().value_types;
        assert(all.take(a.len() as int) =~= a);
        assert(part(all, e.args) =~= part(a, e.args));
        assert(part(all, e.rets) =~= part(a, e.rets));
    }
}

proof fn lemma_types_prefix(vt: Seq<ValueType>, funcs: Seq<pack::FunctionModel>)
    ensures
        pack::pack_functions(vt, funcs).value_types.len() >= vt.len(),
        pack::pack_functions(vt, funcs).value_types.take(vt.len() as int) == vt,
    decreases funcs.len(),
{
    if funcs.len() > 0 {
        lemma_types_prefix(vt, funcs.drop_last());
        let a = pack::pack_functions(vt, funcs.drop_last()).value_types;
        let b = pack::pack_functions(vt, funcs).value_types;
        assert(b.take(vt.len() as int) =~= a.take(vt.len() as int));
    } else {
        assert(pack::pack_functions(vt, funcs).value_types.take(vt.len() as int) =~= vt);
    }
}

/// The program that is built has each constant: a plain one as it is, and a byte string or a string
/// with its bytes.
pub proof fn law_built_constants(v: BuilderView, k: int)
    requires
        0 <= k < v.consts.len(),
        v.packed().const_bytes_data.len() <= u32::MAX,
        v.packed().const_str_data.len() <= u32::MAX,
    ensures
        ({
            let p = v.packed();
            &&& p.const_pool.len() == v.consts.len()
            &&& match v.consts[k] {
                pack::ConstModel::Plain(e) => p.const_pool[k] == e,
                pack::ConstModel::Bytes(b) => p.const_pool[k] matches ConstEntry::Bytes(r)
                    && in_range(p.const_bytes_data, r) && part(p.const_bytes_data, r) == b,
                pack::ConstModel::Str(t) => p.const_pool[k] matches ConstEntry::Str(r) && in_range(
                    p.const_str_data,
                    r,
                ) && part(p.const_str_data, r) == encode_utf8(t),
            }
        }),
{
    roundtrip::lemma_const_slice(v.consts, k);
}

} // verus!
