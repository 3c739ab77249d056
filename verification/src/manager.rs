//! The VM process manager: recording a started backend and planning a
//! best-effort teardown.
//!
//! The operating-system work — allocating a free port, generating an
//! identifier, spawning and signalling processes, invoking the
//! backend's destroy — happens outside; this module decides what to do
//! and keeps the store truthful about it.

use vstd::prelude::*;

use crate::errors::Error;
use crate::handle::{
    lemma_pid_roundtrip, lemma_port_roundtrip, lemma_uuid_roundtrip, spec_format_pid,
    spec_format_port, spec_format_uuid, spec_parse_pid, spec_parse_port, spec_parse_uuid,
    RuntimeHandle, UuidVal,
};
use crate::store::{
    clear_pid, read_pid, read_port, read_uuid, same_but_pid, uuid_file_content, write_pid, write_port, write_uuid, Store,
};
use crate::topology::{find_node, node_named, Deployment};

verus! {

/// Whether any node's port file records this port.
pub open spec fn port_in_use(st: Store, p: u16) -> bool {
    exists|m: Seq<char>| st.port_file(m) == Some(spec_format_port(p))
}

/// Records a freshly launched backend: port, instance identifier and
/// process id are each persisted under the node's name.  The port must
/// not be recorded for any node yet — ports are unique across running
/// nodes of a deployment.
pub fn start(st: &mut Store, name: &str, port: u16, uuid: UuidVal, pid: i64) -> (r: RuntimeHandle)
    requires
        old(st).wf(),
        pid >= 0,
        !port_in_use(*old(st), port),
    ensures
        final(st).wf(),
        final(st).port_file(name@) == Some(spec_format_port(port)),
        final(st).uuid_file(name@) == Some(spec_format_uuid(uuid)),
        final(st).pid_file(name@) == Some(spec_format_pid(pid)),
        final(st).topo_file() == old(st).topo_file(),
        forall|m: Seq<char>|
            m != name@ ==> final(st).port_file(m) == old(st).port_file(m) && final(st).uuid_file(
                m,
            ) == old(st).uuid_file(m) && final(st).pid_file(m) == old(st).pid_file(m),
        r == (RuntimeHandle { port, uuid, pid }),
{
    write_port(st, name, port);
    write_uuid(st, name, uuid);
    write_pid(st, name, pid);
    RuntimeHandle { port, uuid, pid }
}

/// A started node's handle is retrievable field by field from the
/// store, each file independently.
pub proof fn lemma_start_handle_retrievable(st: Store, name: Seq<char>, h: RuntimeHandle)
    requires
        h.pid >= 0,
        st.port_file(name) == Some(spec_format_port(h.port)),
        st.uuid_file(name) == Some(spec_format_uuid(h.uuid)),
        st.pid_file(name) == Some(spec_format_pid(h.pid)),
    ensures
        spec_parse_port(st.port_file(name)->Some_0) == Some(h.port),
        spec_parse_uuid(st.uuid_file(name)->Some_0) == Some(h.uuid),
        spec_parse_pid(st.pid_file(name)->Some_0) == Some(h.pid),
{
    lemma_port_roundtrip(h.port);
    lemma_uuid_roundtrip(h.uuid);
    lemma_pid_roundtrip(h.pid);
}

/// A later start of a different node cannot reuse an allocated port:
/// the first node's record survives and the two ports differ.
pub proof fn lemma_start_ports_distinct(
    st1: Store,
    st2: Store,
    n1: Seq<char>,
    n2: Seq<char>,
    p1: u16,
    p2: u16,
)
    requires
        n1 != n2,
        st1.port_file(n1) == Some(spec_format_port(p1)),
        !port_in_use(st1, p2),
        st2.port_file(n2) == Some(spec_format_port(p2)),
        forall|m: Seq<char>| m != n2 ==> st2.port_file(m) == st1.port_file(m),
    ensures
        p1 != p2,
        st2.port_file(n1) == Some(spec_format_port(p1)),
{
    if p1 == p2 {
        assert(st1.port_file(n1) == Some(spec_format_port(p2)));
        assert(port_in_use(st1, p2));
    }
}

/// The non-fatal conditions a teardown reports instead of failing.
#[derive(PartialEq, Eq, Structural, Clone, Copy, Debug)]
pub enum StopWarning {
    /// No pid file: that half of the teardown is skipped.
    NoPidFile,
    /// A pid file whose content does not parse; nothing is signalled.
    BadPidFile,
    /// No uuid file: no backend destroy is requested.
    NoUuidFile,
}

/// What the caller must carry out after `stop`: signal this process,
/// destroy this backend instance, report these warnings.
pub struct StopPlan {
    pub kill_pid: Option<i64>,
    pub destroy_uuid: Option<String>,
    pub warnings: Vec<StopWarning>,
}

/// The warnings a teardown of `name` against `pre` reports.
pub open spec fn expected_warnings(pre: Store, name: Seq<char>) -> Seq<StopWarning> {
    (match pre.pid_file(name) {
        Some(c) => if spec_parse_pid(c) is Some {
            Seq::<StopWarning>::empty()
        } else {
            seq![StopWarning::BadPidFile]
        },
        None => seq![StopWarning::NoPidFile],
    }) + (match pre.uuid_file(name) {
        Some(_) => Seq::<StopWarning>::empty(),
        None => seq![StopWarning::NoUuidFile],
    })
}

/// The node's pid file after a teardown: removed together with the
/// signal, kept when its content never named a process.
pub open spec fn pid_after_stop(f: Option<Seq<char>>) -> Option<Seq<char>> {
    match f {
        Some(c) => if spec_parse_pid(c) is Some {
            None
        } else {
            Some(c)
        },
        None => None,
    }
}

/// The whole effect of one teardown.
pub open spec fn stop_post(pre: Store, post: Store, name: Seq<char>, plan: StopPlan) -> bool {
    &&& post.wf()
    &&& post.pid_file(name) == pid_after_stop(pre.pid_file(name))
    &&& same_but_pid(pre, post, name)
    &&& plan.kill_pid == (match pre.pid_file(name) {
        Some(c) => spec_parse_pid(c),
        None => None::<i64>,
    })
    &&& (match pre.uuid_file(name) {
        Some(c) => plan.destroy_uuid matches Some(u) && u@ == c,
        None => plan.destroy_uuid is None,
    })
    &&& plan.warnings@ == expected_warnings(pre, name)
}

/// Best-effort teardown of one node: plan a signal for the recorded
/// pid and remove the pid file, then plan a backend destroy for the
/// recorded instance.  Missing or malformed state downgrades to a
/// warning — stopping an already-stopped node is not a failure.
pub fn stop(st: &mut Store, name: &str) -> (r: StopPlan)
    requires
        old(st).wf(),
    ensures
        stop_post(*old(st), *final(st), name@, r),
{
    let mut warnings: Vec<StopWarning> = Vec::new();
    let kill_pid = match read_pid(st, name) {
        Ok(p) => {
            clear_pid(st, name);
            Some(p)
        },
        Err(e) => {
            match e {
                Error::NotFound(_) => warnings.push(StopWarning::NoPidFile),
                _ => warnings.push(StopWarning::BadPidFile),
            }
            None
        },
    };
    let destroy_uuid = match uuid_file_content(st, name) {
        Some(c) => Some(c),
        None => {
            warnings.push(StopWarning::NoUuidFile);
            None
        },
    };
    proof {
        assert(st.uuid_file(name@) == old(st).uuid_file(name@));
        assert(warnings@ =~= expected_warnings(*old(st), name@));
    }
    StopPlan { kill_pid, destroy_uuid, warnings }
}

/// Stopping twice in a row is idempotent: the second teardown signals
/// nothing, reports only the already-stopped conditions, and leaves
/// every file exactly as the first teardown left it.
pub proof fn lemma_stop_idempotent(
    st0: Store,
    st1: Store,
    st2: Store,
    name: Seq<char>,
    first: StopPlan,
    second: StopPlan,
)
    requires
        stop_post(st0, st1, name, first),
        stop_post(st1, st2, name, second),
    ensures
        second.kill_pid is None,
        forall|m: Seq<char>| st2.port_file(m) == st1.port_file(m),
        forall|m: Seq<char>| st2.uuid_file(m) == st1.uuid_file(m),
        forall|m: Seq<char>| st2.pid_file(m) == st1.pid_file(m),
        st2.topo_file() == st1.topo_file(),
{
    assert(st2.pid_file(name) == pid_after_stop(st1.pid_file(name)));
    assert forall|m: Seq<char>| st2.pid_file(m) == st1.pid_file(m) by {
        if m == name {
            assert(st1.pid_file(name) == pid_after_stop(st0.pid_file(name)));
        }
    }
}

/// The names of a deployment's nodes, in declaration order.
pub open spec fn node_names(d: crate::topology::DeploymentV) -> Seq<Seq<char>> {
    Seq::new(d.nodes.len(), |i: int| d.nodes[i].name)
}

/// Tears down every declared node, in declaration order, never
/// aborting on a node whose state is already gone.  The ghost chain
/// of stores witnesses the order: the i-th teardown takes the store
/// from the i-th link of the chain to the next, under the i-th node's
/// name, yielding the i-th plan.
pub fn stop_all(st: &mut Store, d: &Deployment) -> (r: (Vec<StopPlan>, Ghost<Seq<Store>>))
    requires
        old(st).wf(),
    ensures
        final(st).wf(),
        r.0@.len() == d@.nodes.len(),
        r.1@.len() == d@.nodes.len() + 1,
        r.1@[0] == *old(st),
        r.1@[d@.nodes.len() as int] == *final(st),
        forall|i: int|
            0 <= i < d@.nodes.len() ==> stop_post(
                r.1@[i],
                r.1@[i + 1],
                node_names(d@)[i],
                r.0@[i],
            ),
        forall|i: int|
            0 <= i < d@.nodes.len() ==> final(st).pid_file(#[trigger] d@.nodes[i].name)
                == pid_after_stop(old(st).pid_file(d@.nodes[i].name)),
        forall|m: Seq<char>|
            (forall|i: int| 0 <= i < d@.nodes.len() ==> m != (#[trigger] d@.nodes[i]).name)
                ==> final(st).pid_file(m) == old(st).pid_file(m),
        forall|m: Seq<char>| final(st).port_file(m) == old(st).port_file(m),
        forall|m: Seq<char>| final(st).uuid_file(m) == old(st).uuid_file(m),
        final(st).topo_file() == old(st).topo_file(),
{
    let mut plans: Vec<StopPlan> = Vec::new();
    let ghost mut chain: Seq<Store> = seq![*st];
    let mut i: usize = 0;
    while i < d.nodes.len()
        invariant
            st.wf(),
            i <= d.nodes.len(),
            plans@.len() == i,
            d@.nodes.len() == d.nodes@.len(),
            chain.len() == i + 1,
            chain[0] == *old(st),
            chain[i as int] == *st,
            forall|j: int|
                0 <= j < i ==> stop_post(
                    chain[j],
                    chain[j + 1],
                    node_names(d@)[j],
                    #[trigger] plans@[j],
                ),
            forall|j: int|
                0 <= j < i ==> st.pid_file(#[trigger] d@.nodes[j].name) == pid_after_stop(
                    old(st).pid_file(d@.nodes[j].name),
                ),
            forall|m: Seq<char>|
                (forall|j: int| 0 <= j < i ==> m != (#[trigger] d@.nodes[j]).name) ==> st.pid_file(
                    m,
                ) == old(st).pid_file(m),
            forall|m: Seq<char>| st.port_file(m) == old(st).port_file(m),
            forall|m: Seq<char>| st.uuid_file(m) == old(st).uuid_file(m),
            st.topo_file() == old(st).topo_file(),
        decreases d.nodes.len() - i,
    {
        let ghost pre = *st;
        let plan = stop(st, d.nodes[i].name.as_str());
        proof {
            assert(d@.nodes[i as int].name == d.nodes@[i as int]@.name);
            assert forall|j: int|
                0 <= j < i + 1 implies st.pid_file(#[trigger] d@.nodes[j].name) == pid_after_stop(
                old(st).pid_file(d@.nodes[j].name),
            ) by {
                let nm = d@.nodes[j].name;
                if nm == d@.nodes[i as int].name {
                    assert(st.pid_file(nm) == pid_after_stop(pre.pid_file(nm)));
                    if exists|k: int| 0 <= k < i && nm == (#[trigger] d@.nodes[k]).name {
                        let k = choose|k: int| 0 <= k < i && nm == (#[trigger] d@.nodes[k]).name;
                        assert(pre.pid_file(nm) == pid_after_stop(old(st).pid_file(nm)));
                        assert(pid_after_stop(pid_after_stop(old(st).pid_file(nm)))
                            == pid_after_stop(old(st).pid_file(nm)));
                    } else {
                        assert(forall|k: int|
                            0 <= k < i ==> nm != (#[trigger] d@.nodes[k]).name);
                        assert(pre.pid_file(nm) == old(st).pid_file(nm));
                    }
                } else {
                    assert(st.pid_file(nm) == pre.pid_file(nm));
                }
            }
        }
        proof {
            chain = chain.push(*st);
        }
        plans.push(plan);
        i = i + 1;
    }
    (plans, Ghost(chain))
}

/// Starts every declared node, in declaration order: the i-th handle
/// is recorded under the i-th node's name.  The offered ports must be
/// pairwise distinct and free, so no port is reused within the
/// invocation.
pub fn start_all(st: &mut Store, d: &Deployment, hs: &Vec<RuntimeHandle>)
    requires
        old(st).wf(),
        d@.wf(),
        hs@.len() == d@.nodes.len(),
        forall|i: int| 0 <= i < hs@.len() ==> (#[trigger] hs@[i]).pid >= 0,
        forall|i: int, j: int| 0 <= i < j < hs@.len() ==> hs@[i].port != hs@[j].port,
        forall|i: int| 0 <= i < hs@.len() ==> !port_in_use(*old(st), (#[trigger] hs@[i]).port),
    ensures
        final(st).wf(),
        final(st).topo_file() == old(st).topo_file(),
        forall|i: int|
            0 <= i < d@.nodes.len() ==> final(st).port_file(#[trigger] d@.nodes[i].name) == Some(
                spec_format_port(hs@[i].port),
            ) && final(st).uuid_file(d@.nodes[i].name) == Some(spec_format_uuid(hs@[i].uuid))
                && final(st).pid_file(d@.nodes[i].name) == Some(spec_format_pid(hs@[i].pid)),
        forall|m: Seq<char>|
            (forall|i: int| 0 <= i < d@.nodes.len() ==> m != (#[trigger] d@.nodes[i]).name)
                ==> final(st).port_file(m) == old(st).port_file(m) && final(st).uuid_file(m)
                == old(st).uuid_file(m) && final(st).pid_file(m) == old(st).pid_file(m),
{
    let mut i: usize = 0;
    while i < d.nodes.len()
        invariant
            st.wf(),
            d@.wf(),
            i <= d.nodes.len(),
            d@.nodes.len() == d.nodes@.len(),
            hs@.len() == d@.nodes.len(),
            forall|k: int| 0 <= k < hs@.len() ==> (#[trigger] hs@[k]).pid >= 0,
            forall|k: int, j: int| 0 <= k < j < hs@.len() ==> hs@[k].port != hs@[j].port,
            forall|k: int|
                0 <= k < hs@.len() ==> !port_in_use(*old(st), (#[trigger] hs@[k]).port),
            st.topo_file() == old(st).topo_file(),
            forall|j: int|
                0 <= j < i ==> st.port_file(#[trigger] d@.nodes[j].name) == Some(
                    spec_format_port(hs@[j].port),
                ) && st.uuid_file(d@.nodes[j].name) == Some(spec_format_uuid(hs@[j].uuid))
                    && st.pid_file(d@.nodes[j].name) == Some(spec_format_pid(hs@[j].pid)),
            forall|m: Seq<char>|
                (forall|j: int| 0 <= j < i ==> m != (#[trigger] d@.nodes[j]).name) ==> st.port_file(
                    m,
                ) == old(st).port_file(m) && st.uuid_file(m) == old(st).uuid_file(m)
                    && st.pid_file(m) == old(st).pid_file(m),
        decreases d.nodes.len() - i,
    {
        proof {
            assert(d@.nodes[i as int].name == d.nodes@[i as int]@.name);
            assert forall|m: Seq<char>|
                st.port_file(m) != Some(spec_format_port(hs@[i as int].port)) by {
                if exists|j: int| 0 <= j < i && m == (#[trigger] d@.nodes[j]).name {
                    let j = choose|j: int| 0 <= j < i && m == (#[trigger] d@.nodes[j]).name;
                    assert(st.port_file(m) == Some(spec_format_port(hs@[j].port)));
                    if spec_format_port(hs@[j].port) == spec_format_port(hs@[i as int].port) {
                        lemma_port_roundtrip(hs@[j].port);
                        lemma_port_roundtrip(hs@[i as int].port);
                        assert(hs@[j].port == hs@[i as int].port);
                    }
                } else {
                    assert(forall|j: int| 0 <= j < i ==> m != (#[trigger] d@.nodes[j]).name);
                    assert(st.port_file(m) == old(st).port_file(m));
                    if st.port_file(m) == Some(spec_format_port(hs@[i as int].port)) {
                        assert(port_in_use(*old(st), hs@[i as int].port));
                    }
                }
            }
        }
        let ghost pre = *st;
        let h = hs[i];
        start(st, d.nodes[i].name.as_str(), h.port, h.uuid, h.pid);
        proof {
            assert forall|j: int|
                0 <= j < i + 1 implies st.port_file(#[trigger] d@.nodes[j].name) == Some(
                spec_format_port(hs@[j].port),
            ) && st.uuid_file(d@.nodes[j].name) == Some(spec_format_uuid(hs@[j].uuid))
                && st.pid_file(d@.nodes[j].name) == Some(spec_format_pid(hs@[j].pid)) by {
                if j < i {
                    assert(d@.nodes[j].name != d@.nodes[i as int].name);
                }
            }
        }
        i = i + 1;
    }
}

/// What launching one node's backend again needs from the store: its
/// recorded control port and instance identifier.  `NotFound` names
/// the node when it is not declared; otherwise the port and uuid files
/// are read and their errors surface unchanged.
pub fn hyperstart_plan(st: &Store, d: &Deployment, name: &str) -> (r: Result<
    (u16, UuidVal),
    Error,
>)
    requires
        st.wf(),
    ensures
        match r {
            Ok(pu) => node_named(d@, name@) && (match st.port_file(name@) {
                Some(c) => spec_parse_port(c) == Some(pu.0),
                None => false,
            }) && (match st.uuid_file(name@) {
                Some(c) => spec_parse_uuid(c) == Some(pu.1),
                None => false,
            }),
            Err(e) => {
                ||| (!node_named(d@, name@) && (e matches Error::NotFound(m) && m@ == name@))
                ||| (node_named(d@, name@) && st.port_file(name@) is None
                    && e matches Error::NotFound(_))
                ||| (node_named(d@, name@) && (match st.port_file(name@) {
                    Some(c) => spec_parse_port(c) is None,
                    None => false,
                }) && e matches Error::Invalid(_))
                ||| (node_named(d@, name@) && (match st.port_file(name@) {
                    Some(c) => spec_parse_port(c) is Some,
                    None => false,
                }) && st.uuid_file(name@) is None && e matches Error::NotFound(_))
                ||| (node_named(d@, name@) && (match st.port_file(name@) {
                    Some(c) => spec_parse_port(c) is Some,
                    None => false,
                }) && (match st.uuid_file(name@) {
                    Some(c) => spec_parse_uuid(c) is None,
                    None => false,
                }) && e matches Error::Invalid(_))
            },
        },
{
    let _node = match find_node(d, name) {
        Ok(n) => n,
        Err(e) => {
            return Err(e);
        },
    };
    let port = match read_port(st, name) {
        Ok(p) => p,
        Err(e) => {
            return Err(e);
        },
    };
    let uuid = match read_uuid(st, name) {
        Ok(u) => u,
        Err(e) => {
            return Err(e);
        },
    };
    Ok((port, uuid))
}

} // verus!
