//! The declared topology: nodes, links and mounts.

use vstd::prelude::*;

use crate::errors::Error;
use crate::handle::UuidVal;

verus! {

/// A host directory mounted into a node, as a source/destination pair.
#[derive(Clone, Debug)]
pub struct Mount {
    pub source: String,
    pub destination: String,
}

/// The mathematical value of a [`Mount`].
#[verifier::ext_equal]
pub ghost struct MountV {
    pub source: Seq<char>,
    pub destination: Seq<char>,
}

impl View for Mount {
    type V = MountV;

    open spec fn view(&self) -> MountV {
        MountV { source: self.source@, destination: self.destination@ }
    }
}

/// A declared virtual machine: identity, image, sizing, interface
/// count, mounts, and the identifier that namespaces its backing
/// storage.
#[derive(Clone, Debug)]
pub struct Node {
    pub name: String,
    pub image: String,
    pub cores: u64,
    pub memory: u64,
    pub radix: u64,
    pub id: UuidVal,
    pub mounts: Vec<Mount>,
}

/// The mathematical value of a [`Node`].
#[verifier::ext_equal]
pub ghost struct NodeV {
    pub name: Seq<char>,
    pub image: Seq<char>,
    pub cores: u64,
    pub memory: u64,
    pub radix: u64,
    pub id: UuidVal,
    pub mounts: Seq<MountV>,
}

impl View for Node {
    type V = NodeV;

    open spec fn view(&self) -> NodeV {
        NodeV {
            name: self.name@,
            image: self.image@,
            cores: self.cores,
            memory: self.memory,
            radix: self.radix,
            id: self.id,
            mounts: Seq::new(self.mounts@.len(), |i: int| self.mounts@[i]@),
        }
    }
}

/// A declared point-to-point connection between two nodes, by their
/// positions in the deployment, with an optional fixed hardware
/// address.
#[derive(PartialEq, Eq, Structural, Clone, Copy, Debug)]
pub struct Link {
    pub a: u64,
    pub b: u64,
    pub mac: Option<u64>,
}

impl View for Link {
    type V = Link;

    open spec fn view(&self) -> Link {
        *self
    }
}

/// The declared topology: a name and ordered node and link records.
#[derive(Clone, Debug)]
pub struct Deployment {
    pub name: String,
    pub nodes: Vec<Node>,
    pub links: Vec<Link>,
}

/// The mathematical value of a [`Deployment`].
#[verifier::ext_equal]
pub ghost struct DeploymentV {
    pub name: Seq<char>,
    pub nodes: Seq<NodeV>,
    pub links: Seq<Link>,
}

impl View for Deployment {
    type V = DeploymentV;

    open spec fn view(&self) -> DeploymentV {
        DeploymentV {
            name: self.name@,
            nodes: Seq::new(self.nodes@.len(), |i: int| self.nodes@[i]@),
            links: self.links@,
        }
    }
}

impl DeploymentV {
    /// Node names are unique and every link joins two distinct
    /// declared nodes.
    pub open spec fn wf(self) -> bool {
        &&& forall|i: int, j: int|
            0 <= i < j < self.nodes.len() ==> self.nodes[i].name != self.nodes[j].name
        &&& forall|i: int|
            0 <= i < self.links.len() ==> (#[trigger] self.links[i]).a < self.nodes.len()
                && self.links[i].b < self.nodes.len() && self.links[i].a != self.links[i].b
    }
}

/// Whether some declared node carries this name.
pub open spec fn node_named(d: DeploymentV, name: Seq<char>) -> bool {
    exists|i: int| 0 <= i < d.nodes.len() && d.nodes[i].name == name
}

/// Linear scan for the node with the given name; `NotFound` carries
/// the name exactly when no declared node matches it.
pub fn find_node<'a>(d: &'a Deployment, name: &str) -> (r: Result<&'a Node, Error>)
    ensures
        match r {
            Ok(n) => node_named(d@, name@) && n@.name == name@ && exists|i: int|
                0 <= i < d@.nodes.len() && d@.nodes[i] == n@,
            Err(e) => !node_named(d@, name@) && (e matches Error::NotFound(m) && m@ == name@),
        },
{
    let wanted = name.to_owned();
    let mut i: usize = 0;
    while i < d.nodes.len()
        invariant
            i <= d.nodes.len(),
            wanted@ == name@,
            forall|j: int| 0 <= j < i ==> d@.nodes[j].name != name@,
        decreases d.nodes.len() - i,
    {
        if d.nodes[i].name == wanted {
            proof {
                assert(d@.nodes[i as int] == d.nodes@[i as int]@);
            }
            return Ok(&d.nodes[i]);
        }
        i = i + 1;
    }
    Err(Error::NotFound(wanted))
}

} // verus!
