//! The state directory as a value: the topology record and, per node,
//! three independently optional files.
//!
//! Absence of a file means "not currently running" for that aspect
//! alone; the store never assumes the three files are present or
//! absent together.  The surrounding program reads this value from
//! disk and writes it back; everything decided from it is decided
//! here.

use vstd::prelude::*;

use crate::codec::{bounded_dep, load, save, spec_load, spec_save};
use crate::errors::Error;
use crate::handle::{
    format_pid, format_port, format_uuid, parse_pid, parse_port, parse_uuid, spec_format_pid,
    spec_format_port, spec_format_uuid, spec_parse_pid, spec_parse_port, spec_parse_uuid, UuidVal,
};
use crate::topology::Deployment;

verus! {

/// One node's persisted runtime files, each holding raw text.
pub struct StoreEntry {
    pub name: String,
    pub port: Option<String>,
    pub uuid: Option<String>,
    pub pid: Option<String>,
}

/// The whole state directory.
pub struct Store {
    pub topo: Option<String>,
    pub entries: Vec<StoreEntry>,
}

impl Store {
    /// At most one entry per node name.
    pub open spec fn wf(self) -> bool {
        forall|i: int, j: int|
            0 <= i < j < self.entries@.len() ==> self.entries@[i].name@ != self.entries@[j].name@
    }

    pub open spec fn has_entry(self, name: Seq<char>) -> bool {
        exists|i: int| 0 <= i < self.entries@.len() && self.entries@[i].name@ == name
    }

    pub open spec fn entry_idx(self, name: Seq<char>) -> int {
        choose|i: int| 0 <= i < self.entries@.len() && self.entries@[i].name@ == name
    }

    /// The raw content of the node's port file, if present.
    pub open spec fn port_file(self, name: Seq<char>) -> Option<Seq<char>> {
        if self.has_entry(name) {
            match self.entries@[self.entry_idx(name)].port {
                Some(c) => Some(c@),
                None => None,
            }
        } else {
            None
        }
    }

    /// The raw content of the node's uuid file, if present.
    pub open spec fn uuid_file(self, name: Seq<char>) -> Option<Seq<char>> {
        if self.has_entry(name) {
            match self.entries@[self.entry_idx(name)].uuid {
                Some(c) => Some(c@),
                None => None,
            }
        } else {
            None
        }
    }

    /// The raw content of the node's pid file, if present.
    pub open spec fn pid_file(self, name: Seq<char>) -> Option<Seq<char>> {
        if self.has_entry(name) {
            match self.entries@[self.entry_idx(name)].pid {
                Some(c) => Some(c@),
                None => None,
            }
        } else {
            None
        }
    }

    /// The raw content of the topology record, if present.
    pub open spec fn topo_file(self) -> Option<Seq<char>> {
        match self.topo {
            Some(c) => Some(c@),
            None => None,
        }
    }
}

/// An empty state directory.
pub fn new_store() -> (r: Store)
    ensures
        r.wf(),
        r.topo_file() is None,
        forall|m: Seq<char>| r.port_file(m) is None,
        forall|m: Seq<char>| r.uuid_file(m) is None,
        forall|m: Seq<char>| r.pid_file(m) is None,
{
    Store { topo: None, entries: Vec::new() }
}

/// In a well-formed store the entry for a name is the only one
/// carrying it.
pub proof fn lemma_idx_unique(st: Store, name: Seq<char>, k: int)
    requires
        st.wf(),
        0 <= k < st.entries@.len(),
        st.entries@[k].name@ == name,
    ensures
        st.has_entry(name),
        st.entry_idx(name) == k,
{
    assert(st.has_entry(name));
    let i = st.entry_idx(name);
    assert(0 <= i < st.entries@.len() && st.entries@[i].name@ == name);
    if i < k {
        assert(st.entries@[i].name@ != st.entries@[k].name@);
    } else if k < i {
        assert(st.entries@[k].name@ != st.entries@[i].name@);
    }
}

fn clone_opt(o: &Option<String>) -> (r: Option<String>)
    ensures
        r == *o,
{
    match o {
        Some(s) => Some(s.clone()),
        None => None,
    }
}

/// The position of the node's entry, if it has one.
fn find_idx(st: &Store, name: &str) -> (r: Option<usize>)
    requires
        st.wf(),
    ensures
        match r {
            Some(k) => k < st.entries@.len() && st.entries@[k as int].name@ == name@
                && st.has_entry(name@) && st.entry_idx(name@) == k,
            None => !st.has_entry(name@),
        },
{
    let wanted = name.to_owned();
    let mut k: usize = 0;
    while k < st.entries.len()
        invariant
            st.wf(),
            k <= st.entries@.len(),
            wanted@ == name@,
            forall|j: int| 0 <= j < k ==> st.entries@[j].name@ != name@,
        decreases st.entries@.len() - k,
    {
        if st.entries[k].name == wanted {
            proof {
                lemma_idx_unique(*st, name@, k as int);
            }
            return Some(k);
        }
        k = k + 1;
    }
    None
}

/// All of one write's frame conditions: every file of every node other
/// than `name`, and `name`'s files other than the one named, are
/// untouched, as is the topology record.
pub open spec fn same_but_port(pre: Store, post: Store, name: Seq<char>) -> bool {
    &&& post.topo_file() == pre.topo_file()
    &&& forall|m: Seq<char>| m != name ==> post.port_file(m) == pre.port_file(m)
    &&& forall|m: Seq<char>| post.uuid_file(m) == pre.uuid_file(m)
    &&& forall|m: Seq<char>| post.pid_file(m) == pre.pid_file(m)
}

pub open spec fn same_but_uuid(pre: Store, post: Store, name: Seq<char>) -> bool {
    &&& post.topo_file() == pre.topo_file()
    &&& forall|m: Seq<char>| post.port_file(m) == pre.port_file(m)
    &&& forall|m: Seq<char>| m != name ==> post.uuid_file(m) == pre.uuid_file(m)
    &&& forall|m: Seq<char>| post.pid_file(m) == pre.pid_file(m)
}

pub open spec fn same_but_pid(pre: Store, post: Store, name: Seq<char>) -> bool {
    &&& post.topo_file() == pre.topo_file()
    &&& forall|m: Seq<char>| post.port_file(m) == pre.port_file(m)
    &&& forall|m: Seq<char>| post.uuid_file(m) == pre.uuid_file(m)
    &&& forall|m: Seq<char>| m != name ==> post.pid_file(m) == pre.pid_file(m)
}

/// Replaces one field of the entry at `k`.
fn set_field(st: &mut Store, k: usize, which: u8, content: Option<String>)
    requires
        old(st).wf(),
        k < old(st).entries@.len(),
        which < 3,
    ensures
        final(st).wf(),
        final(st).topo == old(st).topo,
        final(st).entries@.len() == old(st).entries@.len(),
        forall|j: int|
            0 <= j < old(st).entries@.len() && j != k ==> final(st).entries@[j]
                == old(st).entries@[j],
        final(st).entries@[k as int].name == old(st).entries@[k as int].name,
        final(st).entries@[k as int].port == if which == 0 {
            content
        } else {
            old(st).entries@[k as int].port
        },
        final(st).entries@[k as int].uuid == if which == 1 {
            content
        } else {
            old(st).entries@[k as int].uuid
        },
        final(st).entries@[k as int].pid == if which == 2 {
            content
        } else {
            old(st).entries@[k as int].pid
        },
{
    let name = st.entries[k].name.clone();
    let port = clone_opt(&st.entries[k].port);
    let uuid = clone_opt(&st.entries[k].uuid);
    let pid = clone_opt(&st.entries[k].pid);
    let e = if which == 0 {
        StoreEntry { name, port: content, uuid, pid }
    } else if which == 1 {
        StoreEntry { name, port, uuid: content, pid }
    } else {
        StoreEntry { name, port, uuid, pid: content }
    };
    st.entries.set(k, e);
    proof {
        assert forall|i: int, j: int|
            0 <= i < j < st.entries@.len() implies st.entries@[i].name@
            != st.entries@[j].name@ by {
            assert(old(st).entries@[i].name@ != old(st).entries@[j].name@);
        }
    }
}


/// After an in-place update at `k` that keeps every name, presence
/// and positions of entries are unchanged, and so is every file of
/// every other node.
pub proof fn lemma_frames_set(pre: Store, post: Store, k: int)
    requires
        pre.wf(),
        post.wf(),
        0 <= k < pre.entries@.len(),
        post.entries@.len() == pre.entries@.len(),
        forall|j: int|
            0 <= j < pre.entries@.len() && j != k ==> post.entries@[j] == pre.entries@[j],
        post.entries@[k].name == pre.entries@[k].name,
    ensures
        forall|m: Seq<char>| post.has_entry(m) == pre.has_entry(m),
        post.has_entry(pre.entries@[k].name@),
        post.entry_idx(pre.entries@[k].name@) == k,
        pre.entry_idx(pre.entries@[k].name@) == k,
        forall|m: Seq<char>|
            m != pre.entries@[k].name@ ==> post.port_file(m) == pre.port_file(m)
                && post.uuid_file(m) == pre.uuid_file(m) && post.pid_file(m) == pre.pid_file(m),
{
    let name = pre.entries@[k].name@;
    lemma_idx_unique(pre, name, k);
    lemma_idx_unique(post, name, k);
    assert forall|m: Seq<char>| post.has_entry(m) == pre.has_entry(m) by {
        if pre.has_entry(m) {
            let i = pre.entry_idx(m);
            assert(post.entries@[i].name@ == m);
        }
        if post.has_entry(m) {
            let i = post.entry_idx(m);
            assert(pre.entries@[i].name@ == m);
        }
    }
    assert forall|m: Seq<char>|
        m != name implies post.port_file(m) == pre.port_file(m) && post.uuid_file(m)
        == pre.uuid_file(m) && post.pid_file(m) == pre.pid_file(m) by {
        if pre.has_entry(m) {
            let i = pre.entry_idx(m);
            assert(pre.entries@[i].name@ == m);
            assert(i != k);
            assert(post.entries@[i] == pre.entries@[i]);
            lemma_idx_unique(post, m, i);
        }
    }
}

/// After appending a record for a fresh name, every existing node's
/// files are unchanged and the new name's files are the new record's.
pub proof fn lemma_frames_push(pre: Store, post: Store, k: int)
    requires
        pre.wf(),
        k == pre.entries@.len(),
        post.entries@.len() == k + 1,
        forall|j: int| 0 <= j < k ==> post.entries@[j] == pre.entries@[j],
        !pre.has_entry(post.entries@[k].name@),
    ensures
        post.wf(),
        post.has_entry(post.entries@[k].name@),
        post.entry_idx(post.entries@[k].name@) == k,
        pre.port_file(post.entries@[k].name@) is None,
        pre.uuid_file(post.entries@[k].name@) is None,
        pre.pid_file(post.entries@[k].name@) is None,
        forall|m: Seq<char>|
            m != post.entries@[k].name@ ==> post.port_file(m) == pre.port_file(m)
                && post.uuid_file(m) == pre.uuid_file(m) && post.pid_file(m) == pre.pid_file(m),
{
    let name = post.entries@[k].name@;
    assert forall|i: int, j: int|
        0 <= i < j < post.entries@.len() implies post.entries@[i].name@
        != post.entries@[j].name@ by {
        if j < k {
            assert(pre.entries@[i].name@ != pre.entries@[j].name@);
        } else {
            assert(post.entries@[j].name@ == name);
            assert(post.entries@[i] == pre.entries@[i]);
            if post.entries@[i].name@ == name {
                assert(pre.has_entry(name));
            }
        }
    }
    lemma_idx_unique(post, name, k);
    assert forall|m: Seq<char>|
        m != name implies post.port_file(m) == pre.port_file(m) && post.uuid_file(m)
        == pre.uuid_file(m) && post.pid_file(m) == pre.pid_file(m) by {
        if pre.has_entry(m) {
            let i = pre.entry_idx(m);
            assert(post.entries@[i].name@ == m);
            lemma_idx_unique(post, m, i);
        } else {
            if post.has_entry(m) {
                let i = post.entry_idx(m);
                assert(i != k);
                assert(pre.entries@[i].name@ == m);
            }
        }
    }
}

/// Writes the node's port file, creating its record if need be.
pub fn write_port(st: &mut Store, name: &str, p: u16)
    requires
        old(st).wf(),
    ensures
        final(st).wf(),
        final(st).port_file(name@) == Some(spec_format_port(p)),
        same_but_port(*old(st), *final(st), name@),
{
    let content = format_port(p);
    match find_idx(st, name) {
        Some(k) => {
            set_field(st, k, 0, Some(content));
            proof {
                lemma_frames_set(*old(st), *st, k as int);
            }
        },
        None => {
            let ghost pre = *st;
            st.entries.push(
                StoreEntry { name: name.to_owned(), port: Some(content), uuid: None, pid: None },
            );
            proof {
                lemma_frames_push(pre, *st, pre.entries@.len() as int);
            }
        },
    }
}

/// Writes the node's uuid file, creating its record if need be.
pub fn write_uuid(st: &mut Store, name: &str, u: UuidVal)
    requires
        old(st).wf(),
    ensures
        final(st).wf(),
        final(st).uuid_file(name@) == Some(spec_format_uuid(u)),
        same_but_uuid(*old(st), *final(st), name@),
{
    let content = format_uuid(u);
    match find_idx(st, name) {
        Some(k) => {
            set_field(st, k, 1, Some(content));
            proof {
                lemma_frames_set(*old(st), *st, k as int);
            }
        },
        None => {
            let ghost pre = *st;
            st.entries.push(
                StoreEntry { name: name.to_owned(), port: None, uuid: Some(content), pid: None },
            );
            proof {
                lemma_frames_push(pre, *st, pre.entries@.len() as int);
            }
        },
    }
}

/// Writes the node's pid file, creating its record if need be.
pub fn write_pid(st: &mut Store, name: &str, p: i64)
    requires
        old(st).wf(),
        p >= 0,
    ensures
        final(st).wf(),
        final(st).pid_file(name@) == Some(spec_format_pid(p)),
        same_but_pid(*old(st), *final(st), name@),
{
    let content = format_pid(p);
    match find_idx(st, name) {
        Some(k) => {
            set_field(st, k, 2, Some(content));
            proof {
                lemma_frames_set(*old(st), *st, k as int);
            }
        },
        None => {
            let ghost pre = *st;
            st.entries.push(
                StoreEntry { name: name.to_owned(), port: None, uuid: None, pid: Some(content) },
            );
            proof {
                lemma_frames_push(pre, *st, pre.entries@.len() as int);
            }
        },
    }
}

/// Removes the node's pid file; absence is not an error.
pub fn clear_pid(st: &mut Store, name: &str)
    requires
        old(st).wf(),
    ensures
        final(st).wf(),
        final(st).pid_file(name@) is None,
        same_but_pid(*old(st), *final(st), name@),
{
    match find_idx(st, name) {
        Some(k) => {
            set_field(st, k, 2, None);
            proof {
                lemma_frames_set(*old(st), *st, k as int);
            }
        },
        None => {
            proof {
                assert(!st.has_entry(name@));
            }
        },
    }
}

/// Removes the node's port file; absence is not an error.
pub fn clear_port(st: &mut Store, name: &str)
    requires
        old(st).wf(),
    ensures
        final(st).wf(),
        final(st).port_file(name@) is None,
        same_but_port(*old(st), *final(st), name@),
{
    match find_idx(st, name) {
        Some(k) => {
            set_field(st, k, 0, None);
            proof {
                lemma_frames_set(*old(st), *st, k as int);
            }
        },
        None => {
        },
    }
}

/// Removes the node's uuid file; absence is not an error.
pub fn clear_uuid(st: &mut Store, name: &str)
    requires
        old(st).wf(),
    ensures
        final(st).wf(),
        final(st).uuid_file(name@) is None,
        same_but_uuid(*old(st), *final(st), name@),
{
    match find_idx(st, name) {
        Some(k) => {
            set_field(st, k, 1, None);
            proof {
                lemma_frames_set(*old(st), *st, k as int);
            }
        },
        None => {
        },
    }
}

/// Reads the node's control port; `NotFound` exactly when the file is
/// absent, `Invalid` exactly when its content does not parse.
pub fn read_port(st: &Store, name: &str) -> (r: Result<u16, Error>)
    requires
        st.wf(),
    ensures
        match st.port_file(name@) {
            Some(c) => (match spec_parse_port(c) {
                Some(p) => r == Ok::<u16, Error>(p),
                None => r matches Err(e) && e matches Error::Invalid(_),
            }),
            None => r matches Err(e) && e matches Error::NotFound(_),
        },
{
    match find_idx(st, name) {
        Some(k) => match &st.entries[k].port {
            Some(c) => parse_port(c.as_str()),
            None => Err(Error::NotFound(name.to_owned())),
        },
        None => Err(Error::NotFound(name.to_owned())),
    }
}

/// Reads the node's instance identifier; errors as for `read_port`.
pub fn read_uuid(st: &Store, name: &str) -> (r: Result<UuidVal, Error>)
    requires
        st.wf(),
    ensures
        match st.uuid_file(name@) {
            Some(c) => (match spec_parse_uuid(c) {
                Some(u) => r == Ok::<UuidVal, Error>(u),
                None => r matches Err(e) && e matches Error::Invalid(_),
            }),
            None => r matches Err(e) && e matches Error::NotFound(_),
        },
{
    match find_idx(st, name) {
        Some(k) => match &st.entries[k].uuid {
            Some(c) => parse_uuid(c.as_str()),
            None => Err(Error::NotFound(name.to_owned())),
        },
        None => Err(Error::NotFound(name.to_owned())),
    }
}

/// Reads the node's backend process id; errors as for `read_port`.
pub fn read_pid(st: &Store, name: &str) -> (r: Result<i64, Error>)
    requires
        st.wf(),
    ensures
        match st.pid_file(name@) {
            Some(c) => (match spec_parse_pid(c) {
                Some(p) => r == Ok::<i64, Error>(p),
                None => r matches Err(e) && e matches Error::Invalid(_),
            }),
            None => r matches Err(e) && e matches Error::NotFound(_),
        },
{
    match find_idx(st, name) {
        Some(k) => match &st.entries[k].pid {
            Some(c) => parse_pid(c.as_str()),
            None => Err(Error::NotFound(name.to_owned())),
        },
        None => Err(Error::NotFound(name.to_owned())),
    }
}

/// The raw text of the node's uuid file, if present.
pub fn uuid_file_content(st: &Store, name: &str) -> (r: Option<String>)
    requires
        st.wf(),
    ensures
        match r {
            Some(c) => st.uuid_file(name@) == Some(c@),
            None => st.uuid_file(name@) is None,
        },
{
    match find_idx(st, name) {
        Some(k) => clone_opt(&st.entries[k].uuid),
        None => None,
    }
}

/// Serializes the deployment into the topology record, overwriting
/// any prior record; the per-node files are untouched.
pub fn save_deployment(st: &mut Store, d: &Deployment)
    requires
        old(st).wf(),
    ensures
        final(st).wf(),
        final(st).topo_file() == Some(spec_save(d@)),
        bounded_dep(d@),
        final(st).entries == old(st).entries,
{
    let content = save(d);
    st.topo = Some(content);
}

/// Deserializes the topology record; `NotFound` exactly when no
/// record exists, `Corrupt` exactly when it does not parse whole.
pub fn load_deployment(st: &Store) -> (r: Result<Deployment, Error>)
    ensures
        match st.topo_file() {
            Some(c) => (match spec_load(c) {
                Some(dv) => r matches Ok(d) && d@ == dv,
                None => r matches Err(e) && e matches Error::Corrupt(_),
            }),
            None => r matches Err(e) && e matches Error::NotFound(_),
        },
{
    match &st.topo {
        Some(c) => load(c.as_str()),
        None => Err(Error::NotFound(String::from_str("no topology record"))),
    }
}

} // verus!

