//! The tabular node listing: one row of cells per node, plus a
//! continuation row per additional mount.  Rendering and alignment
//! stay outside; the cell contents are decided and proved here.

use vstd::prelude::*;

use crate::digits::{digit_char, push_digit};
use crate::handle::{format_uuid, spec_format_uuid};
use crate::topology::{MountV, Node};

verus! {

/// Minimal decimal text of a number: no leading zeros, `"0"` for
/// zero.
pub open spec fn dec_min(n: nat) -> Seq<char>
    decreases n,
{
    if n < 10 {
        seq![digit_char(n)]
    } else {
        dec_min(n / 10) + seq![digit_char(n % 10)]
    }
}

/// Renders a number as minimal decimal text.
pub fn format_dec(n: u64) -> (r: String)
    ensures
        r@ == dec_min(n as nat),
    decreases n,
{
    if n < 10 {
        let mut s = String::new();
        push_digit(&mut s, (n % 10) as usize);
        proof {
            assert(s@ =~= dec_min(n as nat));
        }
        s
    } else {
        let mut s = format_dec(n / 10);
        push_digit(&mut s, (n % 10) as usize);
        proof {
            assert(s@ =~= dec_min(n as nat));
        }
        s
    }
}

/// A mount cell: the source, an arrow, the destination.
pub open spec fn mount_cell(m: MountV) -> Seq<char> {
    m.source + " -> "@ + m.destination
}

/// A node's primary row: name, image, interface count, first mount
/// (or an empty cell), and storage identifier.
pub fn node_row(n: &Node) -> (r: Vec<String>)
    ensures
        r@.len() == 5,
        r@[0]@ == n@.name,
        r@[1]@ == n@.image,
        r@[2]@ == dec_min(n.radix as nat),
        r@[3]@ == if n@.mounts.len() > 0 {
            mount_cell(n@.mounts[0])
        } else {
            Seq::<char>::empty()
        },
        r@[4]@ == spec_format_uuid(n.id),
{
    let mut row: Vec<String> = Vec::new();
    row.push(n.name.clone());
    row.push(n.image.clone());
    row.push(format_dec(n.radix));
    if n.mounts.len() > 0 {
        let mut cell = n.mounts[0].source.clone();
        cell.append(" -> ");
        cell.append(n.mounts[0].destination.as_str());
        proof {
            assert(cell@ == mount_cell(n@.mounts[0]));
        }
        row.push(cell);
    } else {
        row.push(String::new());
    }
    row.push(format_uuid(n.id));
    row
}

/// The continuation rows for a node's mounts after the first: one
/// mount cell each.
pub fn extra_mount_cells(n: &Node) -> (r: Vec<String>)
    ensures
        r@.len() == if n@.mounts.len() > 0 {
            n@.mounts.len() - 1
        } else {
            0
        },
        forall|i: int| 0 <= i < r@.len() ==> r@[i]@ == mount_cell(n@.mounts[i + 1]),
{
    let mut out: Vec<String> = Vec::new();
    if n.mounts.len() == 0 {
        return out;
    }
    let mut i: usize = 1;
    while i < n.mounts.len()
        invariant
            1 <= i <= n.mounts@.len(),
            n@.mounts.len() == n.mounts@.len(),
            out@.len() == i - 1,
            forall|j: int| 0 <= j < out@.len() ==> out@[j]@ == mount_cell(n@.mounts[j + 1]),
        decreases n.mounts.len() - i,
    {
        let mut cell = n.mounts[i].source.clone();
        cell.append(" -> ");
        cell.append(n.mounts[i].destination.as_str());
        proof {
            assert(cell@ == mount_cell(n@.mounts[i as int]));
        }
        out.push(cell);
        i = i + 1;
    }
    out
}

} // verus!
