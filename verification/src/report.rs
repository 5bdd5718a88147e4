//! What a run of a graph tells about itself.

use vstd::prelude::*;

use crate::access;
use crate::access::{KeyModel, NodeId, ResourceKey};

verus! {

/// Which details a report holds.
#[allow(non_camel_case_types)]
#[derive(Copy, Clone, Debug, PartialEq, Eq, Hash, Structural)]
pub enum ReportDetailMask {
    /// None.
    NONE,
    /// The key for which a node ran.
    BECAUSE_OF,
    /// The keys from what was marked dirty to the key for which a node ran.
    WHY_PATH,
    /// Both.
    FULL,
}

impl ReportDetailMask {
    /// Whether the key for which a node ran is asked for.
    pub open spec fn because(self) -> bool {
        self is BECAUSE_OF || self is FULL
    }

    /// Whether the path to that key is asked for.
    pub open spec fn why(self) -> bool {
        self is WHY_PATH || self is FULL
    }

    /// Whether every detail of `other` is among the details of this mask.
    #[must_use]
    pub fn contains(self, other: ReportDetailMask) -> (b: bool)
        ensures
            b == ((other.because() ==> self.because()) && (other.why() ==> self.why())),
    {
        match other {
            ReportDetailMask::NONE => true,
            ReportDetailMask::BECAUSE_OF => matches!(
                self,
                ReportDetailMask::BECAUSE_OF | ReportDetailMask::FULL
            ),
            ReportDetailMask::WHY_PATH => matches!(
                self,
                ReportDetailMask::WHY_PATH | ReportDetailMask::FULL
            ),
            ReportDetailMask::FULL => matches!(self, ReportDetailMask::FULL),
        }
    }
}

/// Why a node ran.
#[derive(Clone, Debug, PartialEq, Eq)]
pub struct NodeRunDetail {
    /// The node.
    pub node: NodeId,
    /// The key for which it ran.
    pub because_of: Option<ResourceKey>,
    /// The keys from what was marked dirty to that key.
    pub why_path: Option<Vec<ResourceKey>>,
}

/// The contents of a detail.
#[verifier::ext_equal]
pub struct DetailModel {
    /// The node.
    pub node: NodeId,
    /// The key for which it ran.
    pub because_of: Option<KeyModel>,
    /// The keys from what was marked dirty to that key.
    pub why_path: Option<Seq<KeyModel>>,
}

impl View for NodeRunDetail {
    type V = DetailModel;

    open spec fn view(&self) -> DetailModel {
        DetailModel {
            node: self.node,
            because_of: match self.because_of {
                Some(k) => Some(k@),
                None => None,
            },
            why_path: match self.why_path {
                Some(p) => Some(access::key_models(p@)),
                None => None,
            },
        }
    }
}

/// The contents of details.
pub open spec fn detail_models(v: Seq<NodeRunDetail>) -> Seq<DetailModel> {
    v.map_values(|d: NodeRunDetail| d@)
}

/// The nodes that ran, in order, with what was asked for about each.
#[derive(Clone, Debug, PartialEq, Eq)]
pub struct RunDetailReport {
    /// The nodes that ran.
    pub executed: Vec<NodeRunDetail>,
}

/// How many nodes ran.
#[derive(Copy, Clone, Debug, PartialEq, Eq, Structural)]
pub struct RunSummary {
    /// Number of the nodes that ran.
    pub executed_nodes: usize,
}

} // verus!
