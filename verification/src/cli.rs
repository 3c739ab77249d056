//! Command dispatch decisions that do not touch the operating system.

use vstd::prelude::*;

use crate::errors::Error;
use crate::topology::Deployment;

verus! {

/// What a finished invocation asks of its caller, so that a program
/// embedding the orchestrator can react to the command that ran.
pub enum RunMode {
    Unspec,
    Launch,
    Destroy,
}

/// The nodes a per-node lifecycle command addresses: every declared
/// node in declaration order under `--all`, otherwise the named node
/// alone; naming neither is a usage error.
pub fn select_targets(d: &Deployment, all: bool, vm_name: Option<&String>) -> (r: Result<
    Vec<String>,
    Error,
>)
    ensures
        match r {
            Ok(v) => if all {
                v@.len() == d@.nodes.len() && forall|i: int|
                    0 <= i < v@.len() ==> v@[i]@ == d@.nodes[i].name
            } else {
                vm_name matches Some(n) && v@.len() == 1 && v@[0]@ == n@
            },
            Err(e) => !all && vm_name is None && e matches Error::Usage(_),
        },
{
    if all {
        let mut v: Vec<String> = Vec::new();
        let mut i: usize = 0;
        while i < d.nodes.len()
            invariant
                i <= d.nodes.len(),
                v@.len() == i,
                d@.nodes.len() == d.nodes@.len(),
                forall|j: int| 0 <= j < i ==> v@[j]@ == d@.nodes[j].name,
            decreases d.nodes.len() - i,
        {
            v.push(d.nodes[i].name.clone());
            i = i + 1;
        }
        Ok(v)
    } else {
        match vm_name {
            Some(n) => {
                let mut v: Vec<String> = Vec::new();
                v.push(n.clone());
                Ok(v)
            },
            None => Err(
                Error::Usage(String::from_str("vm name required unless --all flag is used")),
            ),
        }
    }
}

} // verus!
