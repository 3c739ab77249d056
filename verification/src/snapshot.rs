//! The storage snapshot pipeline: four external commands, fail-fast,
//! with deliberately no rollback of completed steps.
//!
//! The commands are computed here; an outer layer runs each one and
//! feeds its outcome back.  A failure at any step is terminal: later
//! commands are never issued, and nothing ever removes an earlier
//! step's artifact.

use vstd::prelude::*;

use crate::errors::Error;
use crate::topology::{find_node, node_named, Deployment};

verus! {

/// One storage command: a verb and its arguments, handed to the
/// external storage utility.
#[derive(Debug)]
pub struct ZfsCmd {
    pub verb: String,
    pub args: Vec<String>,
}

/// The volume backing a node's running clone.
pub open spec fn source_volume(topo: Seq<char>, node: Seq<char>) -> Seq<char> {
    "rpool/falcon/topo/"@ + topo + "/"@ + node
}

/// The fixed-tag snapshot of the source volume.
pub open spec fn source_snapshot(topo: Seq<char>, node: Seq<char>) -> Seq<char> {
    source_volume(topo, node) + "@base"@
}

/// The new base image's volume.
pub open spec fn dest_volume(image: Seq<char>) -> Seq<char> {
    "rpool/falcon/img/"@ + image
}

/// The fixed-tag snapshot of the new base image; the tag is derived
/// from the destination path, one consistent scheme throughout.
pub open spec fn dest_snapshot(image: Seq<char>) -> Seq<char> {
    dest_volume(image) + "@base"@
}

/// The four commands of one node's snapshot pipeline, in order:
/// snapshot the live volume, clone that snapshot to the new image,
/// promote the clone off the original, snapshot the promoted clone.
pub fn snapshot_plan(d: &Deployment, node_name: &str, image_name: &str) -> (r: Result<
    Vec<ZfsCmd>,
    Error,
>)
    ensures
        match r {
            Ok(cmds) => node_named(d@, node_name@) && cmds@.len() == 4 && cmds@[0].verb@
                == "snapshot"@ && cmds@[0].args@.len() == 1 && cmds@[0].args@[0]@
                == source_snapshot(d@.name, node_name@) && cmds@[1].verb@ == "clone"@
                && cmds@[1].args@.len() == 2 && cmds@[1].args@[0]@ == source_snapshot(
                d@.name,
                node_name@,
            ) && cmds@[1].args@[1]@ == dest_volume(image_name@) && cmds@[2].verb@ == "promote"@
                && cmds@[2].args@.len() == 1 && cmds@[2].args@[0]@ == dest_volume(image_name@)
                && cmds@[3].verb@ == "snapshot"@ && cmds@[3].args@.len() == 1
                && cmds@[3].args@[0]@ == dest_snapshot(image_name@),
            Err(e) => !node_named(d@, node_name@) && (e matches Error::NotFound(m) && m@
                == node_name@),
        },
{
    let _node = match find_node(d, node_name) {
        Ok(n) => n,
        Err(e) => {
            return Err(e);
        },
    };
    let mut source = String::from_str("rpool/falcon/topo/");
    source.append(d.name.as_str());
    source.append("/");
    source.append(node_name);
    let mut source_snap = source.clone();
    source_snap.append("@base");
    let mut dest = String::from_str("rpool/falcon/img/");
    dest.append(image_name);
    let mut dest_snap = dest.clone();
    dest_snap.append("@base");

    let mut c0_args: Vec<String> = Vec::new();
    c0_args.push(source_snap.clone());
    let mut c1_args: Vec<String> = Vec::new();
    c1_args.push(source_snap);
    c1_args.push(dest.clone());
    let mut c2_args: Vec<String> = Vec::new();
    c2_args.push(dest);
    let mut c3_args: Vec<String> = Vec::new();
    c3_args.push(dest_snap);

    let mut cmds: Vec<ZfsCmd> = Vec::new();
    cmds.push(ZfsCmd { verb: String::from_str("snapshot"), args: c0_args });
    cmds.push(ZfsCmd { verb: String::from_str("clone"), args: c1_args });
    cmds.push(ZfsCmd { verb: String::from_str("promote"), args: c2_args });
    cmds.push(ZfsCmd { verb: String::from_str("snapshot"), args: c3_args });
    Ok(cmds)
}

/// What one external storage command reported.
#[derive(Debug)]
pub struct StepOutcome {
    pub success: bool,
    pub stderr: String,
}

/// How far the pipeline has come.
#[derive(Debug)]
pub enum PipelineState {
    /// The step with this index runs next.
    Pending { next: usize },
    /// All four steps succeeded.
    Done,
    /// The step with this index failed; its diagnostic output is kept.
    /// Terminal: earlier steps' artifacts stay as they are.
    Failed { step: usize, stderr: String },
}

/// A fresh pipeline, about to run its first step.
pub fn pipeline_start() -> (r: PipelineState)
    ensures
        r == (PipelineState::Pending { next: 0usize }),
{
    PipelineState::Pending { next: 0 }
}

/// The index of the command the pipeline wants to run next, if any.
pub fn pipeline_next(state: &PipelineState) -> (r: Option<usize>)
    ensures
        r == (match state {
            PipelineState::Pending { next } => Some(*next),
            _ => None::<usize>,
        }),
{
    match state {
        PipelineState::Pending { next } => Some(*next),
        _ => None,
    }
}

/// What one advance of the pipeline yields.
pub open spec fn pipeline_step_post(
    state: PipelineState,
    outcome: StepOutcome,
    r: PipelineState,
) -> bool {
    match state {
        PipelineState::Pending { next } => {
            if outcome.success {
                if next == 3 {
                    r is Done
                } else {
                    r == (PipelineState::Pending { next: (next + 1) as usize })
                }
            } else {
                r matches PipelineState::Failed { step, stderr } && step == next && stderr@
                    == outcome.stderr@
            }
        },
        _ => true,
    }
}

/// Advances the pipeline by the outcome of the step it was waiting
/// on.  Success moves on; failure is terminal and captures the
/// command's diagnostic output.  There is no compensating rollback.
pub fn pipeline_step(state: PipelineState, outcome: StepOutcome) -> (r: PipelineState)
    requires
        state matches PipelineState::Pending { next } && next < 4,
    ensures
        pipeline_step_post(state, outcome, r),
{
    match state {
        PipelineState::Pending { next } => {
            if outcome.success {
                if next == 3 {
                    PipelineState::Done
                } else {
                    PipelineState::Pending { next: next + 1 }
                }
            } else {
                PipelineState::Failed { step: next, stderr: outcome.stderr }
            }
        },
        _ => state,
    }
}

/// The first failing step among the four, if any.
pub open spec fn first_fail(o: Seq<StepOutcome>) -> Option<int> {
    if !o[0].success {
        Some(0int)
    } else if !o[1].success {
        Some(1int)
    } else if !o[2].success {
        Some(2int)
    } else if !o[3].success {
        Some(3int)
    } else {
        None
    }
}

/// The whole effect of a fail-fast run: how many commands were issued
/// and what came of it.
pub open spec fn pipeline_post(o: Seq<StepOutcome>, issued: usize, result: Result<
    (),
    Error,
>) -> bool {
    match first_fail(o) {
        None => issued == 4 && result == Ok::<(), Error>(()),
        Some(k) => issued == k + 1 && (result matches Err(e) && (e matches Error::StorageCommand(
            msg,
        ) && msg@ == o[k].stderr@)),
    }
}

/// Runs the pipeline against the outcomes its commands would produce,
/// stopping at the first failure: later steps are never issued.
pub fn run_pipeline(outcomes: &Vec<StepOutcome>) -> (r: (usize, Result<(), Error>))
    requires
        outcomes@.len() >= 4,
    ensures
        pipeline_post(outcomes@, r.0, r.1),
{
    let mut i: usize = 0;
    while i < 4
        invariant
            outcomes@.len() >= 4,
            i <= 4,
            forall|j: int| 0 <= j < i ==> (#[trigger] outcomes@[j]).success,
        decreases 4 - i,
    {
        if !outcomes[i].success {
            return (i + 1, Err(Error::StorageCommand(outcomes[i].stderr.clone())));
        }
        i = i + 1;
    }
    (4, Ok(()))
}

/// If the clone step fails, the promote and final-snapshot commands
/// are never issued — only the first two commands ran — and the error
/// carries the clone command's diagnostic output.  The first step's
/// snapshot artifact is left in place: no issued command removes it.
pub proof fn lemma_clone_failure_stops_pipeline(
    o: Seq<StepOutcome>,
    issued: usize,
    result: Result<(), Error>,
)
    requires
        o.len() >= 4,
        pipeline_post(o, issued, result),
        o[0].success,
        !o[1].success,
    ensures
        issued == 2,
        result matches Err(e) && (e matches Error::StorageCommand(msg) && msg@ == o[1].stderr@),
{
}

} // verus!
