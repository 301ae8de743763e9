//! Capability tokens and resource specifications as the broker protocol
//! describes them.

use vstd::prelude::*;

verus! {

/// A capability token handed to a compartment.
pub struct CapToken {
    pub id: u64,
    pub description: String,
    pub compartment: String,
    pub delegatable: bool,
    pub parent_id: u64,
}

/// The mathematical value of a token.
pub struct CapTokenView {
    pub id: u64,
    pub description: Seq<char>,
    pub compartment: Seq<char>,
    pub delegatable: bool,
    pub parent_id: u64,
}

impl View for CapToken {
    type V = CapTokenView;

    open spec fn view(&self) -> CapTokenView {
        CapTokenView {
            id: self.id,
            description: self.description@,
            compartment: self.compartment@,
            delegatable: self.delegatable,
            parent_id: self.parent_id,
        }
    }
}

impl CapToken {
    /// A copy of the token.
    pub fn copy(&self) -> (t: CapToken)
        ensures
            t@ == self@,
    {
        CapToken {
            id: self.id,
            description: self.description.clone(),
            compartment: self.compartment.clone(),
            delegatable: self.delegatable,
            parent_id: self.parent_id,
        }
    }
}

/// Access to a file-system path.
pub struct FilesystemResource {
    pub path: String,
    pub read: bool,
    pub write: bool,
    pub execute: bool,
    pub delegatable: bool,
}

/// The right to orchestrate other compartments.
pub struct OrchestrateResource {
    pub can_chain: bool,
}

/// The kinds of resource a capability can grant.
pub enum Resource {
    Filesystem(FilesystemResource),
    Orchestrate(OrchestrateResource),
}

/// What a capability grants access to.
pub struct ResourceSpec {
    pub resource: Resource,
}

/// The mathematical value of a resource specification.
pub enum ResourceView {
    Filesystem { path: Seq<char>, read: bool, write: bool, execute: bool, delegatable: bool },
    Orchestrate { can_chain: bool },
}

impl View for ResourceSpec {
    type V = ResourceView;

    open spec fn view(&self) -> ResourceView {
        match &self.resource {
            Resource::Filesystem(f) => ResourceView::Filesystem {
                path: f.path@,
                read: f.read,
                write: f.write,
                execute: f.execute,
                delegatable: f.delegatable,
            },
            Resource::Orchestrate(o) => ResourceView::Orchestrate { can_chain: o.can_chain },
        }
    }
}

} // verus!
