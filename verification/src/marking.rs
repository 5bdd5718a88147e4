//! Labels and spans of an assembler.

use vstd::prelude::*;

use crate::assembler;
use crate::assembler::{Asm, Label, LabelModel, UnresolvedLabel};

verus! {

/// A new label is behind those that there are, which stay, and has neither a position nor a name
/// but the one that it is given.
pub proof fn law_new_label(name: &str)
    ensures
        forall|m: &mut Asm, l: Label| #[trigger] call_ensures(Asm::label, (m,), l)
            && (*m)@.labels.len() < 0x1_0000_0000 ==> l.index() == (*m)@.labels.len()
            && (*final(m))@.labels == (*m)@.labels.push(LabelModel { pc: None, name: None })
            && (*final(m))@.instrs == (*m)@.instrs && (*final(m))@.marks == (*m)@.marks,
        forall|m: &mut Asm, l: Label| #[trigger] call_ensures(Asm::label_named, (m, name), l)
            && (*m)@.labels.len() < 0x1_0000_0000 ==> l.index() == (*m)@.labels.len()
            && (*final(m))@.labels == (*m)@.labels.push(LabelModel { pc: None, name: Some(name@) })
            && (*final(m))@.instrs == (*m)@.instrs && (*final(m))@.marks == (*m)@.marks,
{
    assert forall|m: &mut Asm, l: Label| #[trigger] call_ensures(Asm::label_named, (m, name), l)
        && (*m)@.labels.len() < 0x1_0000_0000 implies l.index() == (*m)@.labels.len()
        && (*final(m))@.labels == (*m)@.labels.push(LabelModel { pc: None, name: Some(name@) })
        && (*final(m))@.instrs == (*m)@.instrs && (*final(m))@.marks == (*m)@.marks by {
        assert((*final(m))@.labels =~= (*m)@.labels.push(
            LabelModel { pc: None, name: Some(name@) },
        ));
    }
}

/// Placing a label gives it the position of the next instruction and naming it gives it the name.
/// Other labels, the instructions and the spans stay, and a label that there is not is refused.
pub proof fn law_place_and_name(l: Label, name: &str)
    ensures
        forall|m: &mut Asm, res: Result<(), UnresolvedLabel>| #[trigger]
            call_ensures(Asm::place, (m, l), res) ==> {
                &&& res is Ok <==> l.index() < (*m)@.labels.len()
                &&& res is Err ==> *final(m) == *m
                &&& res is Ok && l.index() >= 0 ==> changed_label(*m, *final(m), l)
                    && (*final(m))@.labels[l.index()].pc == Some((*m)@.pc())
                    && (*final(m))@.labels[l.index()].name == (*m)@.labels[l.index()].name
            },
        forall|m: &mut Asm, res: Result<(), UnresolvedLabel>| #[trigger]
            call_ensures(Asm::name_label, (m, l, name), res) ==> {
                &&& res is Ok <==> l.index() < (*m)@.labels.len()
                &&& res is Err ==> *final(m) == *m
                &&& res is Ok && l.index() >= 0 ==> changed_label(*m, *final(m), l)
                    && (*final(m))@.labels[l.index()].name == Some(name@)
                    && (*final(m))@.labels[l.index()].pc == (*m)@.labels[l.index()].pc
            },
{
}

/// Nothing but one label differs.
pub open spec fn changed_label(before: Asm, after: Asm, l: Label) -> bool {
    &&& after@.instrs == before@.instrs
    &&& after@.marks == before@.marks
    &&& after@.labels.len() == before@.labels.len()
    &&& forall|k: int|
        0 <= k < before@.labels.len() && k != l.index() ==> (#[trigger] after@.labels[k])
            == before@.labels[k]
}

/// A span starts at the position of the next instruction. It takes the place of one that starts
/// there too, and stands behind all others, which stay.
pub proof fn law_span(span_id: u64)
    ensures
        forall|m: &mut Asm, r: &mut Asm| #[trigger] call_ensures(Asm::span, (m, span_id), r) ==> {
            let old = (*m)@.marks;
            let new = (*r)@.marks;
            let replaces = old.len() > 0 && old[old.len() - 1].0 == (*m)@.pc();
            &&& (*r)@.instrs == (*m)@.instrs
            &&& (*r)@.labels == (*m)@.labels
            &&& new.len() == if replaces {
                old.len()
            } else {
                old.len() + 1
            }
            &&& new[new.len() - 1] == ((*m)@.pc(), span_id)
            &&& forall|k: int| 0 <= k < new.len() - 1 ==> (#[trigger] new[k]) == old[k]
        },
{
}

/// The named labels of a function are those with a name, each with its position, and no other.
pub proof fn law_named_labels(labels: Seq<LabelModel>, n: nat, k: int, pc: u32, name: Seq<char>)
    requires
        n <= labels.len(),
    ensures
        0 <= k < n && labels[k].pc == Some(pc) && labels[k].name == Some(name)
            ==> assembler::named(labels, n).contains((pc, name)),
        forall|i: int| 0 <= i < assembler::named(labels, n).len() ==> exists|j: int|
            0 <= j < n && (#[trigger] labels[j]).name == Some(
                (#[trigger] assembler::named(labels, n)[i]).1,
            ) && labels[j].pc.unwrap() == assembler::named(labels, n)[i].0,
    decreases n,
{
    if n > 0 {
        law_named_labels(labels, (n - 1) as nat, k, pc, name);
        let before = assembler::named(labels, (n - 1) as nat);
        let all = assembler::named(labels, n);
        if 0 <= k < n && labels[k].pc == Some(pc) && labels[k].name == Some(name) {
            if k == n - 1 {
                assert(all[all.len() - 1] == (pc, name));
            } else {
                let i = choose|i: int| 0 <= i < before.len() && before[i] == (pc, name);
                assert(all[i] == (pc, name));
            }
        }
        assert forall|i: int| 0 <= i < all.len() implies exists|j: int|
            0 <= j < n && (#[trigger] labels[j]).name == Some((#[trigger] all[i]).1)
                && labels[j].pc.unwrap() == all[i].0 by {
            if i < before.len() {
                assert(all[i] == before[i]);
                let j = choose|j: int|
                    0 <= j < n - 1 && (#[trigger] labels[j]).name == Some(before[i].1)
                        && labels[j].pc.unwrap() == before[i].0;
                assert(labels[j].name == Some(all[i].1));
            } else {
                assert(labels[n - 1].name == Some(all[i].1));
            }
        }
    }
}

} // verus!
