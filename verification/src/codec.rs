//! The topology record: a text form for the declared deployment.
//!
//! The record is a single string: every number is sixteen lower-case
//! hexadecimal digits, every text field is its length followed by its
//! characters, and sequences are a count followed by their elements.
//! `save` renders a deployment, `load` reads one back, and
//! `lemma_save_load` proves that reading what was written restores the
//! deployment exactly.

use vstd::prelude::*;

use crate::digits::{
    digits_val, lemma_ser_digits_len, lemma_ser_val, parse_digits, push_digits, ser_digits,
};
use crate::errors::Error;
use crate::handle::{lemma_pow_facts, UuidVal};
use crate::topology::{Deployment, DeploymentV, Link, Mount, MountV, Node, NodeV};

verus! {

/// The bound every persisted length and count obeys.
pub open spec fn fits(n: nat) -> bool {
    n < 0x10000000000000000
}

/// A mount whose text fields can be persisted.
pub open spec fn bounded_mount(m: MountV) -> bool {
    fits(m.source.len()) && fits(m.destination.len())
}

/// A node whose text fields and mount list can be persisted.
pub open spec fn bounded_node(n: NodeV) -> bool {
    &&& fits(n.name.len())
    &&& fits(n.image.len())
    &&& fits(n.mounts.len())
    &&& forall|i: int| 0 <= i < n.mounts.len() ==> bounded_mount(#[trigger] n.mounts[i])
}

/// A deployment whose every field can be persisted.  Any deployment
/// held in memory satisfies this; the bound only matters for the
/// mathematical statement of the round trip.
pub open spec fn bounded_dep(d: DeploymentV) -> bool {
    &&& fits(d.name.len())
    &&& fits(d.nodes.len())
    &&& fits(d.links.len())
    &&& forall|i: int| 0 <= i < d.nodes.len() ==> bounded_node(#[trigger] d.nodes[i])
}

// ------------------------------------------------------------------
// Serialized form.
// ------------------------------------------------------------------

/// A number: sixteen hexadecimal digits.
pub open spec fn ser_num(v: u64) -> Seq<char> {
    ser_digits(v as nat, 16, 16)
}

/// A text field: its length, then its characters verbatim.
pub open spec fn ser_str(t: Seq<char>) -> Seq<char> {
    ser_num(t.len() as u64) + t
}

pub open spec fn ser_mount(m: MountV) -> Seq<char> {
    ser_str(m.source) + ser_str(m.destination)
}

pub open spec fn ser_mounts(ms: Seq<MountV>) -> Seq<char>
    decreases ms.len(),
{
    if ms.len() == 0 {
        Seq::<char>::empty()
    } else {
        ser_mount(ms[0]) + ser_mounts(ms.drop_first())
    }
}

pub open spec fn ser_node(n: NodeV) -> Seq<char> {
    ser_str(n.name) + ser_str(n.image) + ser_num(n.cores) + ser_num(n.memory) + ser_num(n.radix)
        + ser_num(n.id.hi) + ser_num(n.id.lo) + ser_num(n.mounts.len() as u64) + ser_mounts(
        n.mounts,
    )
}

pub open spec fn ser_nodes(ns: Seq<NodeV>) -> Seq<char>
    decreases ns.len(),
{
    if ns.len() == 0 {
        Seq::<char>::empty()
    } else {
        ser_node(ns[0]) + ser_nodes(ns.drop_first())
    }
}

pub open spec fn ser_link(l: Link) -> Seq<char> {
    ser_num(l.a) + ser_num(l.b) + (match l.mac {
        None => ser_num(0),
        Some(m) => ser_num(1) + ser_num(m),
    })
}

pub open spec fn ser_links(ls: Seq<Link>) -> Seq<char>
    decreases ls.len(),
{
    if ls.len() == 0 {
        Seq::<char>::empty()
    } else {
        ser_link(ls[0]) + ser_links(ls.drop_first())
    }
}

/// The whole record: name, node count, nodes, link count, links.
pub open spec fn spec_save(d: DeploymentV) -> Seq<char> {
    ser_str(d.name) + ser_num(d.nodes.len() as u64) + ser_nodes(d.nodes) + ser_num(
        d.links.len() as u64,
    ) + ser_links(d.links)
}

// ------------------------------------------------------------------
// Parsed form: each reader consumes from position `i` and yields the
// value with the next position, or nothing if the record is corrupt.
// ------------------------------------------------------------------

pub open spec fn p_num(s: Seq<char>, i: int) -> Option<(u64, int)> {
    if 0 <= i && i + 16 <= s.len() {
        match digits_val(s.subrange(i, i + 16), 16) {
            Some(v) => Some((v as u64, i + 16)),
            None => None,
        }
    } else {
        None
    }
}

pub open spec fn p_str(s: Seq<char>, i: int) -> Option<(Seq<char>, int)> {
    match p_num(s, i) {
        Some((len, j)) => if j + len <= s.len() {
            Some((s.subrange(j, j + len), j + len))
        } else {
            None
        },
        None => None,
    }
}

pub open spec fn p_mount(s: Seq<char>, i: int) -> Option<(MountV, int)> {
    match p_str(s, i) {
        Some((src, j)) => match p_str(s, j) {
            Some((dst, k)) => Some(((MountV { source: src, destination: dst }), k)),
            None => None,
        },
        None => None,
    }
}

pub open spec fn p_mounts(s: Seq<char>, i: int, count: u64) -> Option<(Seq<MountV>, int)>
    decreases count,
{
    if count == 0 {
        Some((Seq::<MountV>::empty(), i))
    } else {
        match p_mount(s, i) {
            Some((m, j)) => match p_mounts(s, j, (count - 1) as u64) {
                Some((tail, e)) => Some((seq![m] + tail, e)),
                None => None,
            },
            None => None,
        }
    }
}

pub open spec fn p_node(s: Seq<char>, i: int) -> Option<(NodeV, int)> {
    match p_str(s, i) {
        Some((name, i1)) => match p_str(s, i1) {
            Some((image, i2)) => match p_num(s, i2) {
                Some((cores, i3)) => match p_num(s, i3) {
                    Some((memory, i4)) => match p_num(s, i4) {
                        Some((radix, i5)) => match p_num(s, i5) {
                            Some((hi, i6)) => match p_num(s, i6) {
                                Some((lo, i7)) => match p_num(s, i7) {
                                    Some((mcount, i8)) => match p_mounts(s, i8, mcount) {
                                        Some((mounts, i9)) => Some(
                                            (
                                                (NodeV {
                                                    name,
                                                    image,
                                                    cores,
                                                    memory,
                                                    radix,
                                                    id: UuidVal { hi, lo },
                                                    mounts,
                                                }),
                                                i9,
                                            ),
                                        ),
                                        None => None,
                                    },
                                    None => None,
                                },
                                None => None,
                            },
                            None => None,
                        },
                        None => None,
                    },
                    None => None,
                },
                None => None,
            },
            None => None,
        },
        None => None,
    }
}

pub open spec fn p_nodes(s: Seq<char>, i: int, count: u64) -> Option<(Seq<NodeV>, int)>
    decreases count,
{
    if count == 0 {
        Some((Seq::<NodeV>::empty(), i))
    } else {
        match p_node(s, i) {
            Some((n, j)) => match p_nodes(s, j, (count - 1) as u64) {
                Some((tail, e)) => Some((seq![n] + tail, e)),
                None => None,
            },
            None => None,
        }
    }
}

pub open spec fn p_link(s: Seq<char>, i: int) -> Option<(Link, int)> {
    match p_num(s, i) {
        Some((a, i1)) => match p_num(s, i1) {
            Some((b, i2)) => match p_num(s, i2) {
                Some((flag, i3)) => if flag == 0 {
                    Some(((Link { a, b, mac: None }), i3))
                } else if flag == 1 {
                    match p_num(s, i3) {
                        Some((m, i4)) => Some(((Link { a, b, mac: Some(m) }), i4)),
                        None => None,
                    }
                } else {
                    None
                },
                None => None,
            },
            None => None,
        },
        None => None,
    }
}

pub open spec fn p_links(s: Seq<char>, i: int, count: u64) -> Option<(Seq<Link>, int)>
    decreases count,
{
    if count == 0 {
        Some((Seq::<Link>::empty(), i))
    } else {
        match p_link(s, i) {
            Some((l, j)) => match p_links(s, j, (count - 1) as u64) {
                Some((tail, e)) => Some((seq![l] + tail, e)),
                None => None,
            },
            None => None,
        }
    }
}

/// What `load` accepts: a whole record, with nothing left over.
pub open spec fn spec_load(s: Seq<char>) -> Option<DeploymentV> {
    match p_str(s, 0) {
        Some((name, i1)) => match p_num(s, i1) {
            Some((ncount, i2)) => match p_nodes(s, i2, ncount) {
                Some((nodes, i3)) => match p_num(s, i3) {
                    Some((lcount, i4)) => match p_links(s, i4, lcount) {
                        Some((links, i5)) => if i5 == s.len() {
                            Some((DeploymentV { name, nodes, links }))
                        } else {
                            None
                        },
                        None => None,
                    },
                    None => None,
                },
                None => None,
            },
            None => None,
        },
        None => None,
    }
}

// ------------------------------------------------------------------
// Round trip: parsing starts over what serialization wrote.
// ------------------------------------------------------------------

/// Splits knowledge of a serialized pair at position `i` into
/// knowledge of its halves.
pub proof fn lemma_chop(s: Seq<char>, i: int, a: Seq<char>, b: Seq<char>)
    requires
        0 <= i,
        i + a.len() + b.len() <= s.len(),
        s.subrange(i, i + a.len() + b.len()) == a + b,
    ensures
        s.subrange(i, i + a.len()) == a,
        s.subrange(i + a.len(), i + a.len() + b.len()) == b,
{
    let ab = s.subrange(i, i + a.len() + b.len());
    assert forall|k: int| 0 <= k < a.len() implies s.subrange(i, i + a.len())[k] == a[k] by {
        assert(ab[k] == s[i + k]);
        assert(ab[k] == (a + b)[k]);
    }
    assert(s.subrange(i, i + a.len()) =~= a);
    assert forall|k: int|
        0 <= k < b.len() implies s.subrange(i + a.len(), i + a.len() + b.len())[k] == b[k] by {
        assert(ab[a.len() + k] == s[i + a.len() + k]);
        assert(ab[a.len() + k] == (a + b)[a.len() + k]);
    }
    assert(s.subrange(i + a.len(), i + a.len() + b.len()) =~= b);
}

pub proof fn lemma_num_len(v: u64)
    ensures
        ser_num(v).len() == 16,
{
    lemma_ser_digits_len(v as nat, 16, 16);
}

pub proof fn lemma_rt_num(s: Seq<char>, i: int, v: u64)
    requires
        0 <= i,
        i + 16 <= s.len(),
        s.subrange(i, i + 16) == ser_num(v),
    ensures
        p_num(s, i) == Some((v, i + 16)),
{
    lemma_pow_facts();
    lemma_ser_val(v as nat, 16, 16);
}

pub proof fn lemma_rt_str(s: Seq<char>, i: int, t: Seq<char>)
    requires
        0 <= i,
        fits(t.len()),
        i + 16 + t.len() <= s.len(),
        s.subrange(i, i + 16 + t.len()) == ser_str(t),
    ensures
        p_str(s, i) == Some((t, i + 16 + t.len())),
{
    lemma_num_len(t.len() as u64);
    lemma_chop(s, i, ser_num(t.len() as u64), t);
    lemma_rt_num(s, i, t.len() as u64);
}

pub proof fn lemma_rt_mount(s: Seq<char>, i: int, m: MountV)
    requires
        0 <= i,
        bounded_mount(m),
        i + ser_mount(m).len() <= s.len(),
        s.subrange(i, i + ser_mount(m).len()) == ser_mount(m),
    ensures
        p_mount(s, i) == Some((m, i + ser_mount(m).len())),
{
    lemma_num_len(m.source.len() as u64);
    lemma_num_len(m.destination.len() as u64);
    lemma_chop(s, i, ser_str(m.source), ser_str(m.destination));
    lemma_rt_str(s, i, m.source);
    lemma_rt_str(s, i + 16 + m.source.len(), m.destination);
}

pub proof fn lemma_rt_mounts(s: Seq<char>, i: int, ms: Seq<MountV>)
    requires
        0 <= i,
        fits(ms.len()),
        forall|k: int| 0 <= k < ms.len() ==> bounded_mount(#[trigger] ms[k]),
        i + ser_mounts(ms).len() <= s.len(),
        s.subrange(i, i + ser_mounts(ms).len()) == ser_mounts(ms),
    ensures
        p_mounts(s, i, ms.len() as u64) == Some((ms, i + ser_mounts(ms).len())),
    decreases ms.len(),
{
    if ms.len() == 0 {
        assert(ms =~= Seq::<MountV>::empty());
    } else {
        let head = ser_mount(ms[0]);
        let tail = ser_mounts(ms.drop_first());
        lemma_chop(s, i, head, tail);
        lemma_rt_mount(s, i, ms[0]);
        lemma_rt_mounts(s, i + head.len(), ms.drop_first());
        assert(seq![ms[0]] + ms.drop_first() =~= ms);
    }
}

#[verifier::rlimit(100)]
pub proof fn lemma_rt_node(s: Seq<char>, i: int, n: NodeV)
    requires
        0 <= i,
        bounded_node(n),
        i + ser_node(n).len() <= s.len(),
        s.subrange(i, i + ser_node(n).len()) == ser_node(n),
    ensures
        p_node(s, i) == Some((n, i + ser_node(n).len())),
{
    let f1 = ser_str(n.name);
    let f2 = ser_str(n.image);
    let f3 = ser_num(n.cores);
    let f4 = ser_num(n.memory);
    let f5 = ser_num(n.radix);
    let f6 = ser_num(n.id.hi);
    let f7 = ser_num(n.id.lo);
    let f8 = ser_num(n.mounts.len() as u64);
    let f9 = ser_mounts(n.mounts);
    lemma_num_len(n.name.len() as u64);
    lemma_num_len(n.image.len() as u64);
    lemma_num_len(n.cores);
    lemma_num_len(n.memory);
    lemma_num_len(n.radix);
    lemma_num_len(n.id.hi);
    lemma_num_len(n.id.lo);
    lemma_num_len(n.mounts.len() as u64);
    assert(ser_node(n) =~= f1 + (f2 + (f3 + (f4 + (f5 + (f6 + (f7 + (f8 + f9))))))));
    let i1 = i + f1.len();
    lemma_chop(s, i, f1, f2 + (f3 + (f4 + (f5 + (f6 + (f7 + (f8 + f9)))))));
    lemma_rt_str(s, i, n.name);
    let i2 = i1 + f2.len();
    lemma_chop(s, i1, f2, f3 + (f4 + (f5 + (f6 + (f7 + (f8 + f9))))));
    lemma_rt_str(s, i1, n.image);
    let i3 = i2 + f3.len();
    lemma_chop(s, i2, f3, f4 + (f5 + (f6 + (f7 + (f8 + f9)))));
    lemma_rt_num(s, i2, n.cores);
    let i4 = i3 + f4.len();
    lemma_chop(s, i3, f4, f5 + (f6 + (f7 + (f8 + f9))));
    lemma_rt_num(s, i3, n.memory);
    let i5 = i4 + f5.len();
    lemma_chop(s, i4, f5, f6 + (f7 + (f8 + f9)));
    lemma_rt_num(s, i4, n.radix);
    let i6 = i5 + f6.len();
    lemma_chop(s, i5, f6, f7 + (f8 + f9));
    lemma_rt_num(s, i5, n.id.hi);
    let i7 = i6 + f7.len();
    lemma_chop(s, i6, f7, f8 + f9);
    lemma_rt_num(s, i6, n.id.lo);
    let i8 = i7 + f8.len();
    lemma_chop(s, i7, f8, f9);
    lemma_rt_num(s, i7, n.mounts.len() as u64);
    lemma_rt_mounts(s, i8, n.mounts);
}

pub proof fn lemma_rt_nodes(s: Seq<char>, i: int, ns: Seq<NodeV>)
    requires
        0 <= i,
        fits(ns.len()),
        forall|k: int| 0 <= k < ns.len() ==> bounded_node(#[trigger] ns[k]),
        i + ser_nodes(ns).len() <= s.len(),
        s.subrange(i, i + ser_nodes(ns).len()) == ser_nodes(ns),
    ensures
        p_nodes(s, i, ns.len() as u64) == Some((ns, i + ser_nodes(ns).len())),
    decreases ns.len(),
{
    if ns.len() == 0 {
        assert(ns =~= Seq::<NodeV>::empty());
    } else {
        let head = ser_node(ns[0]);
        let tail = ser_nodes(ns.drop_first());
        lemma_chop(s, i, head, tail);
        lemma_rt_node(s, i, ns[0]);
        lemma_rt_nodes(s, i + head.len(), ns.drop_first());
        assert(seq![ns[0]] + ns.drop_first() =~= ns);
    }
}

pub proof fn lemma_rt_link(s: Seq<char>, i: int, l: Link)
    requires
        0 <= i,
        i + ser_link(l).len() <= s.len(),
        s.subrange(i, i + ser_link(l).len()) == ser_link(l),
    ensures
        p_link(s, i) == Some((l, i + ser_link(l).len())),
{
    let f1 = ser_num(l.a);
    let f2 = ser_num(l.b);
    lemma_num_len(l.a);
    lemma_num_len(l.b);
    match l.mac {
        None => {
            let f3 = ser_num(0);
            lemma_num_len(0);
            assert(ser_link(l) =~= f1 + (f2 + f3));
            lemma_chop(s, i, f1, f2 + f3);
            lemma_rt_num(s, i, l.a);
            lemma_chop(s, i + 16, f2, f3);
            lemma_rt_num(s, i + 16, l.b);
            lemma_rt_num(s, i + 32, 0);
        },
        Some(m) => {
            let f3 = ser_num(1);
            let f4 = ser_num(m);
            lemma_num_len(1);
            lemma_num_len(m);
            assert(ser_link(l) =~= f1 + (f2 + (f3 + f4)));
            lemma_chop(s, i, f1, f2 + (f3 + f4));
            lemma_rt_num(s, i, l.a);
            lemma_chop(s, i + 16, f2, f3 + f4);
            lemma_rt_num(s, i + 16, l.b);
            lemma_chop(s, i + 32, f3, f4);
            lemma_rt_num(s, i + 32, 1);
            lemma_rt_num(s, i + 48, m);
        },
    }
}

pub proof fn lemma_rt_links(s: Seq<char>, i: int, ls: Seq<Link>)
    requires
        0 <= i,
        fits(ls.len()),
        i + ser_links(ls).len() <= s.len(),
        s.subrange(i, i + ser_links(ls).len()) == ser_links(ls),
    ensures
        p_links(s, i, ls.len() as u64) == Some((ls, i + ser_links(ls).len())),
    decreases ls.len(),
{
    if ls.len() == 0 {
        assert(ls =~= Seq::<Link>::empty());
    } else {
        let head = ser_link(ls[0]);
        let tail = ser_links(ls.drop_first());
        lemma_chop(s, i, head, tail);
        lemma_rt_link(s, i, ls[0]);
        lemma_rt_links(s, i + head.len(), ls.drop_first());
        assert(seq![ls[0]] + ls.drop_first() =~= ls);
    }
}

/// Round-trip fidelity of the declared topology: loading what `save`
/// wrote restores the deployment exactly.
#[verifier::rlimit(100)]
pub proof fn lemma_save_load(d: DeploymentV)
    requires
        bounded_dep(d),
    ensures
        spec_load(spec_save(d)) == Some(d),
{
    let s = spec_save(d);
    let f1 = ser_str(d.name);
    let f2 = ser_num(d.nodes.len() as u64);
    let f3 = ser_nodes(d.nodes);
    let f4 = ser_num(d.links.len() as u64);
    let f5 = ser_links(d.links);
    lemma_num_len(d.name.len() as u64);
    lemma_num_len(d.nodes.len() as u64);
    lemma_num_len(d.links.len() as u64);
    assert(s =~= f1 + (f2 + (f3 + (f4 + f5))));
    assert(s.subrange(0, s.len() as int) =~= s);
    let i1 = f1.len() as int;
    lemma_chop(s, 0, f1, f2 + (f3 + (f4 + f5)));
    lemma_rt_str(s, 0, d.name);
    let i2 = i1 + 16;
    lemma_chop(s, i1, f2, f3 + (f4 + f5));
    lemma_rt_num(s, i1, d.nodes.len() as u64);
    let i3 = i2 + f3.len();
    lemma_chop(s, i2, f3, f4 + f5);
    lemma_rt_nodes(s, i2, d.nodes);
    let i4 = i3 + 16;
    lemma_chop(s, i3, f4, f5);
    lemma_rt_num(s, i3, d.links.len() as u64);
    lemma_rt_links(s, i4, d.links);
    assert(i4 + f5.len() == s.len());
}


// ------------------------------------------------------------------
// Writing the record.
// ------------------------------------------------------------------

pub proof fn lemma_ser_mounts_snoc(ms: Seq<MountV>, m: MountV)
    ensures
        ser_mounts(ms.push(m)) == ser_mounts(ms) + ser_mount(m),
    decreases ms.len(),
{
    assert(ms.push(m)[0] == if ms.len() == 0 { m } else { ms[0] });
    if ms.len() == 0 {
        assert(ms.push(m).drop_first() =~= Seq::<MountV>::empty());
        assert(ser_mounts(ms.push(m)) == ser_mount(m) + ser_mounts(Seq::<MountV>::empty()));
        assert(ser_mounts(ms.push(m)) =~= ser_mounts(ms) + ser_mount(m));
    } else {
        assert(ms.push(m).drop_first() =~= ms.drop_first().push(m));
        lemma_ser_mounts_snoc(ms.drop_first(), m);
        assert(ser_mounts(ms.push(m)) == ser_mount(ms[0]) + ser_mounts(
            ms.drop_first().push(m),
        ));
        assert(ser_mounts(ms.push(m)) =~= ser_mounts(ms) + ser_mount(m));
    }
}

pub proof fn lemma_ser_nodes_snoc(ns: Seq<NodeV>, n: NodeV)
    ensures
        ser_nodes(ns.push(n)) == ser_nodes(ns) + ser_node(n),
    decreases ns.len(),
{
    assert(ns.push(n)[0] == if ns.len() == 0 { n } else { ns[0] });
    if ns.len() == 0 {
        assert(ns.push(n).drop_first() =~= Seq::<NodeV>::empty());
        assert(ser_nodes(ns.push(n)) == ser_node(n) + ser_nodes(Seq::<NodeV>::empty()));
        assert(ser_nodes(ns.push(n)) =~= ser_nodes(ns) + ser_node(n));
    } else {
        assert(ns.push(n).drop_first() =~= ns.drop_first().push(n));
        lemma_ser_nodes_snoc(ns.drop_first(), n);
        assert(ser_nodes(ns.push(n)) == ser_node(ns[0]) + ser_nodes(
            ns.drop_first().push(n),
        ));
        assert(ser_nodes(ns.push(n)) =~= ser_nodes(ns) + ser_node(n));
    }
}

pub proof fn lemma_ser_links_snoc(ls: Seq<Link>, l: Link)
    ensures
        ser_links(ls.push(l)) == ser_links(ls) + ser_link(l),
    decreases ls.len(),
{
    assert(ls.push(l)[0] == if ls.len() == 0 { l } else { ls[0] });
    if ls.len() == 0 {
        assert(ls.push(l).drop_first() =~= Seq::<Link>::empty());
        assert(ser_links(ls.push(l)) == ser_link(l) + ser_links(Seq::<Link>::empty()));
        assert(ser_links(ls.push(l)) =~= ser_links(ls) + ser_link(l));
    } else {
        assert(ls.push(l).drop_first() =~= ls.drop_first().push(l));
        lemma_ser_links_snoc(ls.drop_first(), l);
        assert(ser_links(ls.push(l)) == ser_link(ls[0]) + ser_links(
            ls.drop_first().push(l),
        ));
        assert(ser_links(ls.push(l)) =~= ser_links(ls) + ser_link(l));
    }
}

fn push_num(out: &mut String, v: u64)
    ensures
        final(out)@ == old(out)@ + ser_num(v),
{
    proof {
        lemma_pow_facts();
    }
    push_digits(out, v, 16, 16);
}

fn push_str_field(out: &mut String, t: &String)
    ensures
        final(out)@ == old(out)@ + ser_str(t@),
        fits(t@.len()),
{
    let len = t.as_str().unicode_len();
    push_num(out, len as u64);
    out.append(t.as_str());
    proof {
        assert(out@ =~= old(out)@ + ser_str(t@));
    }
}

fn push_mount(out: &mut String, m: &Mount)
    ensures
        final(out)@ == old(out)@ + ser_mount(m@),
        bounded_mount(m@),
{
    push_str_field(out, &m.source);
    push_str_field(out, &m.destination);
    proof {
        assert(out@ =~= old(out)@ + ser_mount(m@));
    }
}

fn push_node(out: &mut String, n: &Node)
    ensures
        final(out)@ == old(out)@ + ser_node(n@),
        bounded_node(n@),
{
    push_str_field(out, &n.name);
    push_str_field(out, &n.image);
    push_num(out, n.cores);
    push_num(out, n.memory);
    push_num(out, n.radix);
    push_num(out, n.id.hi);
    push_num(out, n.id.lo);
    push_num(out, n.mounts.len() as u64);
    let ghost header = old(out)@ + ser_str(n@.name) + ser_str(n@.image) + ser_num(n.cores)
        + ser_num(n.memory) + ser_num(n.radix) + ser_num(n.id.hi) + ser_num(n.id.lo) + ser_num(
        n@.mounts.len() as u64,
    );
    let mut i: usize = 0;
    while i < n.mounts.len()
        invariant
            i <= n.mounts.len(),
            header == old(out)@ + ser_str(n@.name) + ser_str(n@.image) + ser_num(n.cores)
                + ser_num(n.memory) + ser_num(n.radix) + ser_num(n.id.hi) + ser_num(n.id.lo)
                + ser_num(n@.mounts.len() as u64),
            n@.mounts.len() == n.mounts@.len(),
            out@ == header + ser_mounts(n@.mounts.take(i as int)),
            forall|j: int| 0 <= j < i ==> bounded_mount(#[trigger] n@.mounts[j]),
        decreases n.mounts.len() - i,
    {
        push_mount(out, &n.mounts[i]);
        proof {
            assert(n@.mounts[i as int] == n.mounts@[i as int]@);
            lemma_ser_mounts_snoc(n@.mounts.take(i as int), n@.mounts[i as int]);
            assert(n@.mounts.take(i + 1) =~= n@.mounts.take(i as int).push(n@.mounts[i as int]));
            assert(out@ =~= header + ser_mounts(n@.mounts.take(i + 1)));
        }
        i = i + 1;
    }
    proof {
        assert(n@.mounts.take(n.mounts@.len() as int) =~= n@.mounts);
        assert(out@ =~= old(out)@ + ser_node(n@));
    }
}

fn push_link(out: &mut String, l: &Link)
    ensures
        final(out)@ == old(out)@ + ser_link(*l),
{
    push_num(out, l.a);
    push_num(out, l.b);
    match l.mac {
        None => {
            push_num(out, 0);
        },
        Some(m) => {
            push_num(out, 1);
            push_num(out, m);
        },
    }
    proof {
        assert(out@ =~= old(out)@ + ser_link(*l));
    }
}

/// Renders the declared topology as its persisted record.
pub fn save(d: &Deployment) -> (r: String)
    ensures
        r@ == spec_save(d@),
        bounded_dep(d@),
{
    let mut out = String::new();
    push_str_field(&mut out, &d.name);
    push_num(&mut out, d.nodes.len() as u64);
    let ghost header = ser_str(d@.name) + ser_num(d@.nodes.len() as u64);
    let mut i: usize = 0;
    while i < d.nodes.len()
        invariant
            i <= d.nodes.len(),
            header == ser_str(d@.name) + ser_num(d@.nodes.len() as u64),
            d@.nodes.len() == d.nodes@.len(),
            out@ == header + ser_nodes(d@.nodes.take(i as int)),
            forall|j: int| 0 <= j < i ==> bounded_node(#[trigger] d@.nodes[j]),
        decreases d.nodes.len() - i,
    {
        push_node(&mut out, &d.nodes[i]);
        proof {
            assert(d@.nodes[i as int] == d.nodes@[i as int]@);
            lemma_ser_nodes_snoc(d@.nodes.take(i as int), d@.nodes[i as int]);
            assert(d@.nodes.take(i + 1) =~= d@.nodes.take(i as int).push(d@.nodes[i as int]));
            assert(out@ =~= header + ser_nodes(d@.nodes.take(i + 1)));
        }
        i = i + 1;
    }
    proof {
        assert(d@.nodes.take(d.nodes@.len() as int) =~= d@.nodes);
    }
    push_num(&mut out, d.links.len() as u64);
    let ghost header2 = header + ser_nodes(d@.nodes) + ser_num(d@.links.len() as u64);
    let mut j: usize = 0;
    while j < d.links.len()
        invariant
            j <= d.links.len(),
            header2 == header + ser_nodes(d@.nodes) + ser_num(d@.links.len() as u64),
            header == ser_str(d@.name) + ser_num(d@.nodes.len() as u64),
            d@.links.len() == d.links@.len(),
            out@ == header2 + ser_links(d@.links.take(j as int)),
        decreases d.links.len() - j,
    {
        push_link(&mut out, &d.links[j]);
        proof {
            lemma_ser_links_snoc(d@.links.take(j as int), d@.links[j as int]);
            assert(d@.links.take(j + 1) =~= d@.links.take(j as int).push(d@.links[j as int]));
            assert(out@ =~= header2 + ser_links(d@.links.take(j + 1)));
        }
        j = j + 1;
    }
    proof {
        assert(d@.links.take(d.links@.len() as int) =~= d@.links);
        assert(out@ =~= spec_save(d@));
    }
    out
}

// ------------------------------------------------------------------
// Reading the record.
// ------------------------------------------------------------------

fn parse_num_at(s: &str, i: usize, n: usize) -> (r: Option<(u64, usize)>)
    requires
        n == s@.len(),
    ensures
        match r {
            Some(pr) => p_num(s@, i as int) == Some((pr.0, pr.1 as int)) && i < pr.1 <= n,
            None => p_num(s@, i as int) is None,
        },
{
    if n < 16 || i > n - 16 {
        return None;
    }
    proof {
        lemma_pow_facts();
    }
    match parse_digits(s, i, 16, 16) {
        Some(v) => Some((v, i + 16)),
        None => None,
    }
}

fn parse_str_at(s: &str, i: usize, n: usize) -> (r: Option<(String, usize)>)
    requires
        n == s@.len(),
    ensures
        match r {
            Some(pr) => (match p_str(s@, i as int) {
                Some(q) => q.0 == pr.0@ && q.1 == pr.1 as int && pr.1 <= n,
                None => false,
            }),
            None => p_str(s@, i as int) is None,
        },
{
    let (len64, j) = match parse_num_at(s, i, n) {
        Some(x) => x,
        None => {
            return None;
        },
    };
    if len64 > (n - j) as u64 {
        return None;
    }
    let len = len64 as usize;
    let t = s.substring_char(j, j + len);
    Some((t.to_owned(), j + len))
}

fn parse_mount_at(s: &str, i: usize, n: usize) -> (r: Option<(Mount, usize)>)
    requires
        n == s@.len(),
    ensures
        match r {
            Some(pr) => (match p_mount(s@, i as int) {
                Some(q) => q.0 == pr.0@ && q.1 == pr.1 as int && pr.1 <= n,
                None => false,
            }),
            None => p_mount(s@, i as int) is None,
        },
{
    let (source, j) = match parse_str_at(s, i, n) {
        Some(x) => x,
        None => {
            return None;
        },
    };
    let (destination, k) = match parse_str_at(s, j, n) {
        Some(x) => x,
        None => {
            return None;
        },
    };
    Some((Mount { source, destination }, k))
}

fn parse_mounts_at(s: &str, i: usize, n: usize, count: u64) -> (r: Option<(Vec<Mount>, usize)>)
    requires
        n == s@.len(),
        i <= n,
    ensures
        match r {
            Some(pr) => (match p_mounts(s@, i as int, count) {
                Some(q) => q.0 == Seq::new(pr.0@.len(), |t: int| pr.0@[t]@) && q.1 == pr.1 as int
                    && pr.1 <= n,
                None => false,
            }),
            None => p_mounts(s@, i as int, count) is None,
        },
{
    let mut acc: Vec<Mount> = Vec::new();
    let mut cur = i;
    let mut rem = count;
    proof {
        assert(Seq::new(acc@.len(), |t: int| acc@[t]@) =~= Seq::<MountV>::empty());
        if p_mounts(s@, i as int, count) is Some {
            let q = p_mounts(s@, i as int, count)->Some_0;
            assert(Seq::new(acc@.len(), |t: int| acc@[t]@) + q.0 =~= q.0);
        }
    }
    while rem > 0
        invariant
            n == s@.len(),
            cur <= n,
            p_mounts(s@, i as int, count) == (match p_mounts(s@, cur as int, rem) {
                Some(q) => Some(
                    (Seq::new(acc@.len(), |t: int| acc@[t]@) + q.0, q.1),
                ),
                None => None::<(Seq<MountV>, int)>,
            }),
        decreases rem,
    {
        match parse_mount_at(s, cur, n) {
            Some((m, j)) => {
                proof {
                    let accv = Seq::new(acc@.len(), |t: int| acc@[t]@);
                    let accv2 = Seq::new(acc@.push(m).len(), |t: int| acc@.push(m)[t]@);
                    if p_mounts(s@, j as int, (rem - 1) as u64) is Some {
                        let q = p_mounts(s@, j as int, (rem - 1) as u64)->Some_0;
                        assert(accv + (seq![m@] + q.0) =~= accv2 + q.0);
                    }
                }
                acc.push(m);
                cur = j;
                rem = rem - 1;
            },
            None => {
                return None;
            },
        }
    }
    proof {
        assert(Seq::new(acc@.len(), |t: int| acc@[t]@) + Seq::<MountV>::empty() =~= Seq::new(
            acc@.len(),
            |t: int| acc@[t]@,
        ));
    }
    Some((acc, cur))
}

fn parse_node_at(s: &str, i: usize, n: usize) -> (r: Option<(Node, usize)>)
    requires
        n == s@.len(),
    ensures
        match r {
            Some(pr) => (match p_node(s@, i as int) {
                Some(q) => q.0 == pr.0@ && q.1 == pr.1 as int && pr.1 <= n,
                None => false,
            }),
            None => p_node(s@, i as int) is None,
        },
{
    let (name, i1) = match parse_str_at(s, i, n) {
        Some(x) => x,
        None => {
            return None;
        },
    };
    let (image, i2) = match parse_str_at(s, i1, n) {
        Some(x) => x,
        None => {
            return None;
        },
    };
    let (cores, i3) = match parse_num_at(s, i2, n) {
        Some(x) => x,
        None => {
            return None;
        },
    };
    let (memory, i4) = match parse_num_at(s, i3, n) {
        Some(x) => x,
        None => {
            return None;
        },
    };
    let (radix, i5) = match parse_num_at(s, i4, n) {
        Some(x) => x,
        None => {
            return None;
        },
    };
    let (hi, i6) = match parse_num_at(s, i5, n) {
        Some(x) => x,
        None => {
            return None;
        },
    };
    let (lo, i7) = match parse_num_at(s, i6, n) {
        Some(x) => x,
        None => {
            return None;
        },
    };
    let (mcount, i8) = match parse_num_at(s, i7, n) {
        Some(x) => x,
        None => {
            return None;
        },
    };
    let (mounts, i9) = match parse_mounts_at(s, i8, n, mcount) {
        Some(x) => x,
        None => {
            return None;
        },
    };
    let node = Node { name, image, cores, memory, radix, id: UuidVal { hi, lo }, mounts };
    proof {
        assert((match p_node(s@, i as int) {
            Some(q) => q.0 =~= node@,
            None => false,
        }));
    }
    Some((node, i9))
}

fn parse_nodes_at(s: &str, i: usize, n: usize, count: u64) -> (r: Option<(Vec<Node>, usize)>)
    requires
        n == s@.len(),
        i <= n,
    ensures
        match r {
            Some(pr) => (match p_nodes(s@, i as int, count) {
                Some(q) => q.0 == Seq::new(pr.0@.len(), |t: int| pr.0@[t]@) && q.1 == pr.1 as int
                    && pr.1 <= n,
                None => false,
            }),
            None => p_nodes(s@, i as int, count) is None,
        },
{
    let mut acc: Vec<Node> = Vec::new();
    let mut cur = i;
    let mut rem = count;
    proof {
        assert(Seq::new(acc@.len(), |t: int| acc@[t]@) =~= Seq::<NodeV>::empty());
        if p_nodes(s@, i as int, count) is Some {
            let q = p_nodes(s@, i as int, count)->Some_0;
            assert(Seq::new(acc@.len(), |t: int| acc@[t]@) + q.0 =~= q.0);
        }
    }
    while rem > 0
        invariant
            n == s@.len(),
            cur <= n,
            p_nodes(s@, i as int, count) == (match p_nodes(s@, cur as int, rem) {
                Some(q) => Some(
                    (Seq::new(acc@.len(), |t: int| acc@[t]@) + q.0, q.1),
                ),
                None => None::<(Seq<NodeV>, int)>,
            }),
        decreases rem,
    {
        match parse_node_at(s, cur, n) {
            Some((nd, j)) => {
                proof {
                    let accv = Seq::new(acc@.len(), |t: int| acc@[t]@);
                    let accv2 = Seq::new(acc@.push(nd).len(), |t: int| acc@.push(nd)[t]@);
                    if p_nodes(s@, j as int, (rem - 1) as u64) is Some {
                        let q = p_nodes(s@, j as int, (rem - 1) as u64)->Some_0;
                        assert(accv + (seq![nd@] + q.0) =~= accv2 + q.0);
                    }
                }
                acc.push(nd);
                cur = j;
                rem = rem - 1;
            },
            None => {
                return None;
            },
        }
    }
    proof {
        assert(Seq::new(acc@.len(), |t: int| acc@[t]@) + Seq::<NodeV>::empty() =~= Seq::new(
            acc@.len(),
            |t: int| acc@[t]@,
        ));
        if count == 0 {
            assert(p_nodes(s@, cur as int, 0) == Some((Seq::<NodeV>::empty(), cur as int)));
        }
    }
    Some((acc, cur))
}

fn parse_link_at(s: &str, i: usize, n: usize) -> (r: Option<(Link, usize)>)
    requires
        n == s@.len(),
    ensures
        match r {
            Some(pr) => (match p_link(s@, i as int) {
                Some(q) => q.0 == pr.0 && q.1 == pr.1 as int && pr.1 <= n,
                None => false,
            }),
            None => p_link(s@, i as int) is None,
        },
{
    let (a, i1) = match parse_num_at(s, i, n) {
        Some(x) => x,
        None => {
            return None;
        },
    };
    let (b, i2) = match parse_num_at(s, i1, n) {
        Some(x) => x,
        None => {
            return None;
        },
    };
    let (flag, i3) = match parse_num_at(s, i2, n) {
        Some(x) => x,
        None => {
            return None;
        },
    };
    if flag == 0 {
        Some((Link { a, b, mac: None }, i3))
    } else if flag == 1 {
        let (m, i4) = match parse_num_at(s, i3, n) {
            Some(x) => x,
            None => {
                return None;
            },
        };
        Some((Link { a, b, mac: Some(m) }, i4))
    } else {
        None
    }
}

fn parse_links_at(s: &str, i: usize, n: usize, count: u64) -> (r: Option<(Vec<Link>, usize)>)
    requires
        n == s@.len(),
        i <= n,
    ensures
        match r {
            Some(pr) => (match p_links(s@, i as int, count) {
                Some(q) => q.0 == pr.0@ && q.1 == pr.1 as int && pr.1 <= n,
                None => false,
            }),
            None => p_links(s@, i as int, count) is None,
        },
{
    let mut acc: Vec<Link> = Vec::new();
    let mut cur = i;
    let mut rem = count;
    proof {
        if p_links(s@, i as int, count) is Some {
            let q = p_links(s@, i as int, count)->Some_0;
            assert(acc@ + q.0 =~= q.0);
        }
    }
    while rem > 0
        invariant
            n == s@.len(),
            cur <= n,
            p_links(s@, i as int, count) == (match p_links(s@, cur as int, rem) {
                Some(q) => Some((acc@ + q.0, q.1)),
                None => None::<(Seq<Link>, int)>,
            }),
        decreases rem,
    {
        match parse_link_at(s, cur, n) {
            Some((l, j)) => {
                proof {
                    if p_links(s@, j as int, (rem - 1) as u64) is Some {
                        let q = p_links(s@, j as int, (rem - 1) as u64)->Some_0;
                        assert(acc@ + (seq![l] + q.0) =~= acc@.push(l) + q.0);
                    }
                }
                acc.push(l);
                cur = j;
                rem = rem - 1;
            },
            None => {
                return None;
            },
        }
    }
    proof {
        assert(acc@ + Seq::<Link>::empty() =~= acc@);
    }
    Some((acc, cur))
}

/// Reads a persisted topology record; `Corrupt` exactly when the
/// record does not parse back to a whole deployment.
pub fn load(s: &str) -> (r: Result<Deployment, Error>)
    ensures
        match r {
            Ok(d) => spec_load(s@) == Some(d@),
            Err(e) => spec_load(s@) is None && e matches Error::Corrupt(_),
        },
{
    let n = s.unicode_len();
    let (name, i1) = match parse_str_at(s, 0, n) {
        Some(x) => x,
        None => {
            return Err(Error::Corrupt(String::from_str("topology record is malformed")));
        },
    };
    let (ncount, i2) = match parse_num_at(s, i1, n) {
        Some(x) => x,
        None => {
            return Err(Error::Corrupt(String::from_str("topology record is malformed")));
        },
    };
    let (nodes, i3) = match parse_nodes_at(s, i2, n, ncount) {
        Some(x) => x,
        None => {
            return Err(Error::Corrupt(String::from_str("topology record is malformed")));
        },
    };
    let (lcount, i4) = match parse_num_at(s, i3, n) {
        Some(x) => x,
        None => {
            return Err(Error::Corrupt(String::from_str("topology record is malformed")));
        },
    };
    let (links, i5) = match parse_links_at(s, i4, n, lcount) {
        Some(x) => x,
        None => {
            return Err(Error::Corrupt(String::from_str("topology record is malformed")));
        },
    };
    if i5 != n {
        return Err(Error::Corrupt(String::from_str("topology record has trailing content")));
    }
    let d = Deployment { name, nodes, links };
    proof {
        assert((match spec_load(s@) {
            Some(q) => q =~= d@,
            None => false,
        }));
    }
    Ok(d)
}

} // verus!

