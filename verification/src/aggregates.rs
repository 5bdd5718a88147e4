//! The heap of aggregates.

use vstd::prelude::*;
use vstd::string::*;

use crate::program;
use crate::program::{clamp_u32, ElemTypeId, TypeId};
use crate::value;
use crate::value::{AggHandle, Value, ValueModel};

verus! {

/// What an aggregate is.
#[derive(Copy, Clone, Debug, PartialEq, Eq, Structural)]
pub enum AggKind {
    /// A tuple.
    Tuple,
    /// A struct of a struct type.
    Struct(TypeId),
    /// An array of an element type.
    Array(ElemTypeId),
}

/// A failed access to an aggregate.
#[derive(Copy, Clone, Debug, PartialEq, Eq, Structural)]
pub enum AggError {
    /// No aggregate has the handle.
    InvalidHandle,
    /// The aggregate is of another kind.
    WrongKind,
    /// The aggregate has no such element.
    OutOfBounds,
}

/// What is said of a failed access.
pub open spec fn agg_error_text(e: AggError) -> Seq<char> {
    match e {
        AggError::InvalidHandle => "invalid aggregate handle"@,
        AggError::WrongKind => "aggregate is of another kind"@,
        AggError::OutOfBounds => "aggregate index out of bounds"@,
    }
}

impl AggError {
    /// What is said of this failure.
    pub fn message(self) -> (s: &'static str)
        ensures
            s@ == agg_error_text(self),
    {
        match self {
            AggError::InvalidHandle => "invalid aggregate handle",
            AggError::WrongKind => "aggregate is of another kind",
            AggError::OutOfBounds => "aggregate index out of bounds",
        }
    }
}

/// An aggregate.
#[derive(Clone, Debug, PartialEq, Eq)]
pub struct AggNode {
    /// What it is.
    pub kind: AggKind,
    /// Its elements.
    pub values: Vec<Value>,
}

/// What an aggregate holds.
#[verifier::ext_equal]
pub struct AggModel {
    pub kind: AggKind,
    pub values: Seq<ValueModel>,
}

impl View for AggNode {
    type V = AggModel;

    open spec fn view(&self) -> AggModel {
        AggModel { kind: self.kind, values: value::value_models(self.values@) }
    }
}

/// The same kind of aggregate, whatever its type.
pub open spec fn same_kind(a: AggKind, b: AggKind) -> bool {
    ||| a is Tuple && b is Tuple
    ||| a is Struct && b is Struct
    ||| a is Array && b is Array
}

/// The elements of an aggregate of the given kind, whatever its type.
pub open spec fn elements(heap: Seq<AggModel>, h: AggHandle, kind: AggKind) -> Result<
    Seq<ValueModel>,
    AggError,
> {
    if h.0 >= heap.len() {
        Err(AggError::InvalidHandle)
    } else if !same_kind(heap[h.0 as int].kind, kind) {
        Err(AggError::WrongKind)
    } else {
        Ok(heap[h.0 as int].values)
    }
}

/// An element of an aggregate of the given kind.
pub open spec fn element(heap: Seq<AggModel>, h: AggHandle, kind: AggKind, index: nat) -> Result<
    ValueModel,
    AggError,
> {
    match elements(heap, h, kind) {
        Err(e) => Err(e),
        Ok(v) => if index < v.len() {
            Ok(v[index as int])
        } else {
            Err(AggError::OutOfBounds)
        },
    }
}

/// The handle that the next aggregate gets.
pub open spec fn next_handle(heap: Seq<AggModel>) -> AggHandle {
    AggHandle(program::clamp32(heap.len()))
}

/// The heap of aggregates.
#[derive(Clone, Debug)]
pub struct AggHeap {
    nodes: Vec<AggNode>,
}

impl View for AggHeap {
    type V = Seq<AggModel>;

    closed spec fn view(&self) -> Seq<AggModel> {
        self.nodes@.map_values(|n: AggNode| n@)
    }
}

impl AggHeap {
    /// An empty heap.
    #[must_use]
    pub fn new() -> (h: Self)
        ensures
            h@ == Seq::<AggModel>::empty(),
    {
        let h = AggHeap { nodes: Vec::new() };
        assert(h@ =~= Seq::<AggModel>::empty());
        h
    }

    /// The number of aggregates.
    pub fn len(&self) -> (n: usize)
        ensures
            n == self@.len(),
    {
        self.nodes.len()
    }

    /// Adds an aggregate and gives its handle.
    pub fn push_node(&mut self, kind: AggKind, values: Vec<Value>) -> (h: AggHandle)
        ensures
            h == next_handle(old(self)@),
            final(self)@ == old(self)@.push(
                AggModel { kind, values: value::value_models(values@) },
            ),
    {
        let h = AggHandle(clamp_u32(self.nodes.len()));
        self.nodes.push(AggNode { kind, values });
        assert(self@ =~= old(self)@.push(AggModel { kind, values: value::value_models(values@) }));
        h
    }

    /// Adds a tuple.
    pub fn tuple_new(&mut self, values: Vec<Value>) -> (h: AggHandle)
        ensures
            h == next_handle(old(self)@),
            final(self)@ == old(self)@.push(
                AggModel { kind: AggKind::Tuple, values: value::value_models(values@) },
            ),
    {
        self.push_node(AggKind::Tuple, values)
    }

    /// Adds a struct.
    pub fn struct_new(&mut self, type_id: TypeId, values: Vec<Value>) -> (h: AggHandle)
        ensures
            h == next_handle(old(self)@),
            final(self)@ == old(self)@.push(
                AggModel { kind: AggKind::Struct(type_id), values: value::value_models(values@) },
            ),
    {
        self.push_node(AggKind::Struct(type_id), values)
    }

    /// Adds an array.
    pub fn array_new(&mut self, elem_type_id: ElemTypeId, values: Vec<Value>) -> (h: AggHandle)
        ensures
            h == next_handle(old(self)@),
            final(self)@ == old(self)@.push(
                AggModel {
                    kind: AggKind::Array(elem_type_id),
                    values: value::value_models(values@),
                },
            ),
    {
        self.push_node(AggKind::Array(elem_type_id), values)
    }

    /// The elements of an aggregate of the given kind, whatever its type.
    fn get_values(&self, h: AggHandle, kind: AggKind) -> (res: Result<&Vec<Value>, AggError>)
        ensures
            match elements(self@, h, kind) {
                Ok(v) => res is Ok && value::value_models(res->Ok_0@) == v,
                Err(e) => res == Err::<&Vec<Value>, AggError>(e),
            },
    {
        let i: usize = h.0 as usize;
        if i >= self.nodes.len() {
            return Err(AggError::InvalidHandle);
        }
        let node = &self.nodes[i];
        assert(self@[i as int] == node@);
        let same: bool = match (node.kind, kind) {
            (AggKind::Tuple, AggKind::Tuple) => true,
            (AggKind::Struct(_), AggKind::Struct(_)) => true,
            (AggKind::Array(_), AggKind::Array(_)) => true,
            _ => false,
        };
        if same {
            Ok(&node.values)
        } else {
            Err(AggError::WrongKind)
        }
    }

    /// An element of an aggregate of the given kind, whatever its type.
    pub fn get_element(&self, h: AggHandle, kind: AggKind, index: usize) -> (res: Result<
        Value,
        AggError,
    >)
        ensures
            match element(self@, h, kind, index as nat) {
                Ok(v) => res is Ok && res->Ok_0@ == v,
                Err(e) => res == Err::<Value, AggError>(e),
            },
    {
        let values = self.get_values(h, kind)?;
        if index >= values.len() {
            return Err(AggError::OutOfBounds);
        }
        Ok(values[index].duplicate())
    }

    /// The number of elements of an aggregate of the given kind, whatever its type.
    pub fn count(&self, h: AggHandle, kind: AggKind) -> (res: Result<usize, AggError>)
        ensures
            match elements(self@, h, kind) {
                Ok(v) => res is Ok && res->Ok_0 == v.len(),
                Err(e) => res == Err::<usize, AggError>(e),
            },
    {
        let values = self.get_values(h, kind)?;
        Ok(values.len())
    }
}

impl Default for AggHeap {
    fn default() -> (h: Self)
        ensures
            h@ == Seq::<AggModel>::empty(),
    {
        AggHeap::new()
    }
}

} // verus!
