//! What the nodes of a graph read and write.

use vstd::prelude::*;
use vstd::string::*;

use crate::host::{AccessSink, ResourceKeyRef};

verus! {

/// A node of a graph, by its index.
#[derive(Copy, Clone, Debug, PartialEq, Eq, PartialOrd, Ord, Hash, Structural)]
pub struct NodeId(pub u64);

impl NodeId {
    /// The node with the given index.
    #[must_use]
    pub fn new(index: u64) -> (n: Self)
        ensures
            n == NodeId(index),
    {
        NodeId(index)
    }

    /// The index of this node.
    #[must_use]
    pub fn as_u64(self) -> (index: u64)
        ensures
            index == self.0,
    {
        self.0
    }
}

/// A host operation, by its signature hash.
#[derive(Copy, Clone, Debug, PartialEq, Eq, PartialOrd, Ord, Hash, Structural)]
pub struct HostOpId(pub u64);

impl HostOpId {
    /// The operation with the given signature hash.
    #[must_use]
    pub fn new(op: u64) -> (h: Self)
        ensures
            h == HostOpId(op),
    {
        HostOpId(op)
    }
}

/// Something that can be read, written and invalidated.
#[derive(Clone, Debug, PartialEq, Eq, PartialOrd, Ord, Hash)]
pub enum ResourceKey {
    /// An external input, by its name.
    Input(String),
    /// Host state that an operation consulted.
    HostState {
        /// Host operation.
        op: HostOpId,
        /// Key of the state, local to the operation.
        key: u64,
    },
    /// Everything that an opaque host operation may depend on.
    OpaqueHost {
        /// Host operation.
        op: HostOpId,
    },
    /// An output of a node.
    NodeOutput {
        /// The node.
        node: NodeId,
        /// Name of the output.
        output: String,
    },
}

/// The contents of a resource key.
#[verifier::ext_equal]
pub enum KeyModel {
    /// An external input, by its name.
    Input(Seq<char>),
    /// Host state that an operation consulted.
    HostState {
        /// Host operation.
        op: HostOpId,
        /// Key of the state, local to the operation.
        key: u64,
    },
    /// Everything that an opaque host operation may depend on.
    OpaqueHost {
        /// Host operation.
        op: HostOpId,
    },
    /// An output of a node.
    NodeOutput {
        /// The node.
        node: NodeId,
        /// Name of the output.
        output: Seq<char>,
    },
}

impl View for ResourceKey {
    type V = KeyModel;

    open spec fn view(&self) -> KeyModel {
        match self {
            ResourceKey::Input(name) => KeyModel::Input(name@),
            ResourceKey::HostState { op, key } => KeyModel::HostState { op: *op, key: *key },
            ResourceKey::OpaqueHost { op } => KeyModel::OpaqueHost { op: *op },
            ResourceKey::NodeOutput { node, output } => KeyModel::NodeOutput {
                node: *node,
                output: output@,
            },
        }
    }
}

/// The key that a borrowed key stands for.
pub open spec fn borrowed_key(key: ResourceKeyRef<'_>) -> KeyModel {
    match key {
        ResourceKeyRef::Input(name) => KeyModel::Input(name@),
        ResourceKeyRef::HostState { op, key } => KeyModel::HostState { op: HostOpId(op.0), key },
        ResourceKeyRef::OpaqueHost { op } => KeyModel::OpaqueHost { op: HostOpId(op.0) },
    }
}

impl ResourceKey {
    /// An external input.
    #[must_use]
    pub fn input(name: &str) -> (k: Self)
        ensures
            k@ == KeyModel::Input(name@),
    {
        ResourceKey::Input(name.to_owned())
    }

    /// Host state that an operation consulted.
    #[must_use]
    pub fn host_state(op: HostOpId, key: u64) -> (k: Self)
        ensures
            k@ == (KeyModel::HostState { op, key }),
    {
        ResourceKey::HostState { op, key }
    }

    /// Everything that an opaque host operation may depend on.
    #[must_use]
    pub fn opaque_host(op: HostOpId) -> (k: Self)
        ensures
            k@ == (KeyModel::OpaqueHost { op }),
    {
        ResourceKey::OpaqueHost { op }
    }

    /// An output of a node.
    #[must_use]
    pub fn node_output(node: NodeId, output: &str) -> (k: Self)
        ensures
            k@ == (KeyModel::NodeOutput { node, output: output@ }),
    {
        ResourceKey::NodeOutput { node, output: output.to_owned() }
    }

    /// The key that a borrowed key stands for.
    #[must_use]
    pub fn from_borrowed(key: ResourceKeyRef<'_>) -> (k: Self)
        ensures
            k@ == borrowed_key(key),
    {
        match key {
            ResourceKeyRef::Input(name) => ResourceKey::input(name),
            ResourceKeyRef::HostState { op, key } => ResourceKey::host_state(
                HostOpId::new(op.0),
                key,
            ),
            ResourceKeyRef::OpaqueHost { op } => ResourceKey::opaque_host(HostOpId::new(op.0)),
        }
    }

    /// A copy of this key.
    #[must_use]
    pub fn duplicate(&self) -> (k: Self)
        ensures
            k@ == self@,
    {
        match self {
            ResourceKey::Input(name) => ResourceKey::input(name.as_str()),
            ResourceKey::HostState { op, key } => ResourceKey::host_state(*op, *key),
            ResourceKey::OpaqueHost { op } => ResourceKey::opaque_host(*op),
            ResourceKey::NodeOutput { node, output } => ResourceKey::node_output(
                *node,
                output.as_str(),
            ),
        }
    }
}

/// The contents of resource keys.
pub open spec fn key_models(keys: Seq<ResourceKey>) -> Seq<KeyModel> {
    keys.map_values(|k: ResourceKey| k@)
}

/// A read or a write.
#[derive(Clone, Debug, PartialEq, Eq)]
pub enum Access {
    /// A read.
    Read(ResourceKey),
    /// A write.
    Write(ResourceKey),
}

/// The contents of an access.
#[verifier::ext_equal]
pub enum AccessModel {
    /// A read.
    Read(KeyModel),
    /// A write.
    Write(KeyModel),
}

impl View for Access {
    type V = AccessModel;

    open spec fn view(&self) -> AccessModel {
        match self {
            Access::Read(k) => AccessModel::Read(k@),
            Access::Write(k) => AccessModel::Write(k@),
        }
    }
}

impl Access {
    /// A copy of this access.
    #[must_use]
    pub fn duplicate(&self) -> (a: Self)
        ensures
            a@ == self@,
    {
        match self {
            Access::Read(k) => Access::Read(k.duplicate()),
            Access::Write(k) => Access::Write(k.duplicate()),
        }
    }
}

/// The accesses of a run, in order.
#[derive(Clone, Debug, PartialEq, Eq)]
pub struct AccessLog {
    entries: Vec<Access>,
}

impl View for AccessLog {
    type V = Seq<AccessModel>;

    closed spec fn view(&self) -> Seq<AccessModel> {
        self.entries@.map_values(|a: Access| a@)
    }
}

impl AccessLog {
    /// An empty log.
    #[must_use]
    pub fn new() -> (l: Self)
        ensures
            l@ == Seq::<AccessModel>::empty(),
    {
        let l = AccessLog { entries: Vec::new() };
        assert(l@ =~= Seq::<AccessModel>::empty());
        l
    }

    /// Appends an access.
    pub fn push(&mut self, access: Access)
        ensures
            final(self)@ == old(self)@.push(access@),
    {
        self.entries.push(access);
        assert(self@ =~= old(self)@.push(access@));
    }

    /// How many accesses there are.
    #[must_use]
    pub fn len(&self) -> (n: usize)
        ensures
            n == self@.len(),
    {
        self.entries.len()
    }

    /// Whether there are no accesses.
    #[must_use]
    pub fn is_empty(&self) -> (b: bool)
        ensures
            b == (self@.len() == 0),
    {
        self.entries.len() == 0
    }

    /// The access at a place in the log.
    #[must_use]
    pub fn get(&self, i: usize) -> (a: Option<&Access>)
        ensures
            match a {
                Some(a) => i < self@.len() && a@ == self@[i as int],
                None => i >= self@.len(),
            },
    {
        if i < self.entries.len() {
            Some(&self.entries[i])
        } else {
            None
        }
    }
}

impl AccessSink for AccessLog {
    fn read(&mut self, key: ResourceKeyRef<'_>)
        ensures
            final(self)@ == old(self)@.push(AccessModel::Read(borrowed_key(key))),
    {
        self.push(Access::Read(ResourceKey::from_borrowed(key)));
    }

    fn write(&mut self, key: ResourceKeyRef<'_>)
        ensures
            final(self)@ == old(self)@.push(AccessModel::Write(borrowed_key(key))),
    {
        self.push(Access::Write(ResourceKey::from_borrowed(key)));
    }
}

} // verus!
