//! Runtime-handle scalars and their on-disk text forms.
//!
//! Each running node leaves three independently persisted scalars
//! behind: its control port (decimal text), its backend process id
//! (decimal text) and its hypervisor instance identifier (canonical
//! uuid text).  This module gives each scalar its writer and its
//! reader, with the reader's acceptance condition stated exactly.

use vstd::prelude::*;

use crate::digits::{
    digit_of, digits_val, lemma_pow_mono, lemma_ser_digits_chars, lemma_ser_digits_len, lemma_ser_val,
    lemma_trimmed_digits, lemma_val_bound, parse_digits, pow_of, push_digits,
    ser_digits, trim_len, trimmed,
};
use crate::errors::Error;

verus! {

/// A 128-bit instance identifier as two plain halves, most significant
/// first.
#[derive(PartialEq, Eq, Structural, Clone, Copy, Debug)]
pub struct UuidVal {
    pub hi: u64,
    pub lo: u64,
}

/// The triple recorded while a node's backend is running.
#[derive(PartialEq, Eq, Structural, Clone, Copy, Debug)]
pub struct RuntimeHandle {
    pub port: u16,
    pub uuid: UuidVal,
    pub pid: i64,
}

/// Unfolded powers of ten and sixteen that the scalar codecs need.
pub proof fn lemma_pow_facts()
    ensures
        pow_of(10, 5) == 100000,
        pow_of(10, 19) == 10000000000000000000,
        pow_of(16, 4) == 0x10000,
        pow_of(16, 8) == 0x100000000,
        pow_of(16, 12) == 0x1000000000000,
        pow_of(16, 16) == 0x10000000000000000,
{
    reveal_with_fuel(pow_of, 20);
}

// ------------------------------------------------------------------
// Control port: decimal text, at most five digits, value at most 65535.
// ------------------------------------------------------------------

/// What the port reader accepts: the content, less trailing
/// whitespace, is one to five decimal digits denoting a value that
/// fits a sixteen-bit port.
pub open spec fn spec_parse_port(s: Seq<char>) -> Option<u16> {
    let t = trimmed(s);
    if 1 <= t.len() <= 5 {
        match digits_val(t, 10) {
            Some(v) => if v <= 65535 {
                Some(v as u16)
            } else {
                None
            },
            None => None,
        }
    } else {
        None
    }
}

/// The canonical port file content: five decimal digits.
pub open spec fn spec_format_port(p: u16) -> Seq<char> {
    ser_digits(p as nat, 10, 5)
}

/// Renders a control port as port file content.
pub fn format_port(p: u16) -> (r: String)
    ensures
        r@ == spec_format_port(p),
{
    let mut out = String::new();
    proof {
        lemma_pow_facts();
    }
    push_digits(&mut out, p as u64, 10, 5);
    proof {
        assert(out@ =~= spec_format_port(p));
    }
    out
}

/// Reads port file content; `Invalid` exactly when the content is not
/// decimal text for a sixteen-bit value.
pub fn parse_port(s: &str) -> (r: Result<u16, Error>)
    ensures
        match r {
            Ok(p) => spec_parse_port(s@) == Some(p),
            Err(e) => spec_parse_port(s@) is None && e matches Error::Invalid(_),
        },
{
    let end = trim_len(s);
    if end < 1 || end > 5 {
        return Err(Error::Invalid(String::from_str("port file is not decimal text")));
    }
    proof {
        lemma_pow_facts();
        lemma_pow_mono(10, end as nat, 5);
    }
    match parse_digits(s, 0, end, 10) {
        Some(v) => {
            proof {
                assert(s@.subrange(0, end as int) == trimmed(s@));
                lemma_val_bound(s@.subrange(0, end as int), 10);
            }
            if v <= 65535 {
                Ok(v as u16)
            } else {
                Err(Error::Invalid(String::from_str("port value does not fit sixteen bits")))
            }
        },
        None => Err(Error::Invalid(String::from_str("port file is not decimal text"))),
    }
}

/// A written port file reads back as the same port.
pub proof fn lemma_port_roundtrip(p: u16)
    ensures
        spec_parse_port(spec_format_port(p)) == Some(p),
{
    lemma_pow_facts();
    let t = spec_format_port(p);
    lemma_ser_digits_len(p as nat, 10, 5);
    lemma_ser_digits_chars(p as nat, 10, 5);
    assert(digit_of(t.last()) is Some);
    lemma_trimmed_digits(t);
    lemma_ser_val(p as nat, 10, 5);
}

// ------------------------------------------------------------------
// Process id: decimal text with an optional sign, value fits i64.
// ------------------------------------------------------------------

/// The value denoted by an unsigned decimal run of 1 to 19 digits.
pub open spec fn spec_dec_run(t: Seq<char>) -> Option<nat> {
    if 1 <= t.len() <= 19 {
        digits_val(t, 10)
    } else {
        None
    }
}

/// What the pid reader accepts: optionally signed decimal text whose
/// value fits a signed 64-bit integer.
pub open spec fn spec_parse_pid(s: Seq<char>) -> Option<i64> {
    let t = trimmed(s);
    if t.len() >= 1 && t[0] == '-' {
        match spec_dec_run(t.subrange(1, t.len() as int)) {
            Some(v) => if v <= 0x8000000000000000 {
                Some((-(v as int)) as i64)
            } else {
                None
            },
            None => None,
        }
    } else {
        match spec_dec_run(t) {
            Some(v) => if v <= 0x7fffffffffffffff {
                Some(v as i64)
            } else {
                None
            },
            None => None,
        }
    }
}

/// The canonical pid file content for a non-negative pid: nineteen
/// decimal digits.
pub open spec fn spec_format_pid(p: i64) -> Seq<char> {
    ser_digits(p as nat, 10, 19)
}

/// Renders a backend process id as pid file content.
pub fn format_pid(p: i64) -> (r: String)
    requires
        p >= 0,
    ensures
        r@ == spec_format_pid(p),
{
    let mut out = String::new();
    proof {
        lemma_pow_facts();
    }
    push_digits(&mut out, p as u64, 10, 19);
    proof {
        assert(out@ =~= spec_format_pid(p));
    }
    out
}

/// Reads an unsigned decimal run covering `s@.subrange(i, end)`.
fn parse_dec_run(s: &str, i: usize, end: usize) -> (r: Option<u64>)
    requires
        i <= end <= s@.len(),
        end <= usize::MAX,
    ensures
        match spec_dec_run(s@.subrange(i as int, end as int)) {
            Some(v) => r == Some(v as u64) && v < 10000000000000000000,
            None => r is None,
        },
{
    let k = end - i;
    if k < 1 || k > 19 {
        return None;
    }
    proof {
        lemma_pow_facts();
        lemma_pow_mono(10, k as nat, 19);
    }
    let r = parse_digits(s, i, k, 10);
    proof {
        let sub = s@.subrange(i as int, end as int);
        assert(sub == s@.subrange(i as int, (i + k) as int));
        if digits_val(sub, 10) is Some {
            lemma_val_bound(sub, 10);
        }
    }
    r
}

/// Reads pid file content; `Invalid` exactly when the content is not
/// optionally signed decimal text fitting a signed 64-bit integer.
pub fn parse_pid(s: &str) -> (r: Result<i64, Error>)
    ensures
        match r {
            Ok(p) => spec_parse_pid(s@) == Some(p),
            Err(e) => spec_parse_pid(s@) is None && e matches Error::Invalid(_),
        },
{
    let end = trim_len(s);
    let ghost t = trimmed(s@);
    if end >= 1 && s.get_char(0) == '-' {
        proof {
            assert(t[0] == s@[0]);
            assert(t.subrange(1, t.len() as int) =~= s@.subrange(1, end as int));
        }
        match parse_dec_run(s, 1, end) {
            Some(v) => {
                if v <= 0x8000000000000000 {
                    if v == 0x8000000000000000 {
                        Ok(i64::MIN)
                    } else {
                        Ok(-(v as i64))
                    }
                } else {
                    Err(Error::Invalid(String::from_str("pid value does not fit")))
                }
            },
            None => Err(Error::Invalid(String::from_str("pid file is not decimal text"))),
        }
    } else {
        proof {
            if t.len() >= 1 {
                assert(t[0] == s@[0]);
            }
            assert(t =~= s@.subrange(0, end as int));
        }
        match parse_dec_run(s, 0, end) {
            Some(v) => {
                if v <= 0x7fffffffffffffff {
                    Ok(v as i64)
                } else {
                    Err(Error::Invalid(String::from_str("pid value does not fit")))
                }
            },
            None => Err(Error::Invalid(String::from_str("pid file is not decimal text"))),
        }
    }
}

/// A written pid file reads back as the same pid.
pub proof fn lemma_pid_roundtrip(p: i64)
    requires
        p >= 0,
    ensures
        spec_parse_pid(spec_format_pid(p)) == Some(p),
{
    lemma_pow_facts();
    let t = spec_format_pid(p);
    lemma_ser_digits_len(p as nat, 10, 19);
    lemma_ser_digits_chars(p as nat, 10, 19);
    assert(digit_of(t.last()) is Some);
    lemma_trimmed_digits(t);
    assert(digit_of(t[0]) is Some);
    assert(t[0] != '-');
    lemma_ser_val(p as nat, 10, 19);
}


// ------------------------------------------------------------------
// Instance identifier: canonical uuid text, five lower-case
// hexadecimal groups of 8, 4, 4, 4 and 12 digits joined by hyphens.
// ------------------------------------------------------------------

/// The canonical uuid text of an instance identifier.
pub open spec fn spec_format_uuid(u: UuidVal) -> Seq<char> {
    ser_digits((u.hi as nat) / 0x100000000, 16, 8) + seq!['-'] + ser_digits(
        ((u.hi as nat) % 0x100000000) / 0x10000,
        16,
        4,
    ) + seq!['-'] + ser_digits((u.hi as nat) % 0x10000, 16, 4) + seq!['-'] + ser_digits(
        (u.lo as nat) / 0x1000000000000,
        16,
        4,
    ) + seq!['-'] + ser_digits((u.lo as nat) % 0x1000000000000, 16, 12)
}

/// What the uuid reader accepts: canonical uuid text, less trailing
/// whitespace.
pub open spec fn spec_parse_uuid(s: Seq<char>) -> Option<UuidVal> {
    let t = trimmed(s);
    if t.len() == 36 && t[8] == '-' && t[13] == '-' && t[18] == '-' && t[23] == '-' {
        match (
            digits_val(t.subrange(0, 8), 16),
            digits_val(t.subrange(9, 13), 16),
            digits_val(t.subrange(14, 18), 16),
            digits_val(t.subrange(19, 23), 16),
            digits_val(t.subrange(24, 36), 16),
        ) {
            (Some(g0), Some(g1), Some(g2), Some(g3), Some(g4)) => Some(
                UuidVal {
                    hi: (g0 * 0x100000000 + g1 * 0x10000 + g2) as u64,
                    lo: (g3 * 0x1000000000000 + g4) as u64,
                },
            ),
            _ => None,
        }
    } else {
        None
    }
}

/// Appends the group separator.
fn push_dash(out: &mut String)
    ensures
        final(out)@ == old(out)@ + seq!['-'],
{
    out.append("-");
    proof {
        reveal_strlit("-");
        assert("-"@ =~= seq!['-']);
    }
}

/// Renders an instance identifier as canonical uuid text.
pub fn format_uuid(u: UuidVal) -> (r: String)
    ensures
        r@ == spec_format_uuid(u),
{
    proof {
        lemma_pow_facts();
        assert((u.hi as nat) / 0x100000000 < 0x100000000) by (nonlinear_arith)
            requires
                u.hi <= 0xffffffffffffffffu64,
        ;
        assert(((u.hi as nat) % 0x100000000) / 0x10000 < 0x10000) by (nonlinear_arith);
        assert((u.hi as nat) % 0x10000 < 0x10000) by (nonlinear_arith);
        assert((u.lo as nat) / 0x1000000000000 < 0x10000) by (nonlinear_arith)
            requires
                u.lo <= 0xffffffffffffffffu64,
        ;
        assert((u.lo as nat) % 0x1000000000000 < 0x1000000000000) by (nonlinear_arith);
    }
    let mut out = String::new();
    push_digits(&mut out, u.hi / 0x100000000, 16, 8);
    push_dash(&mut out);
    push_digits(&mut out, (u.hi % 0x100000000) / 0x10000, 16, 4);
    push_dash(&mut out);
    push_digits(&mut out, u.hi % 0x10000, 16, 4);
    push_dash(&mut out);
    push_digits(&mut out, u.lo / 0x1000000000000, 16, 4);
    push_dash(&mut out);
    push_digits(&mut out, u.lo % 0x1000000000000, 16, 12);
    proof {
        assert(out@ =~= spec_format_uuid(u));
    }
    out
}

/// Reads uuid file content; `Invalid` exactly when the content is not
/// canonical uuid text.
pub fn parse_uuid(s: &str) -> (r: Result<UuidVal, Error>)
    ensures
        match r {
            Ok(u) => spec_parse_uuid(s@) == Some(u),
            Err(e) => spec_parse_uuid(s@) is None && e matches Error::Invalid(_),
        },
{
    let end = trim_len(s);
    let ghost t = trimmed(s@);
    if end != 36 {
        return Err(Error::Invalid(String::from_str("uuid file is not canonical uuid text")));
    }
    proof {
        assert forall|i: int| 0 <= i < 36 implies t[i] == s@[i] by {}
    }
    if s.get_char(8) != '-' || s.get_char(13) != '-' || s.get_char(18) != '-' || s.get_char(23)
        != '-' {
        return Err(Error::Invalid(String::from_str("uuid file is not canonical uuid text")));
    }
    proof {
        lemma_pow_facts();
        assert(t.subrange(0, 8) =~= s@.subrange(0, 8));
        assert(t.subrange(9, 13) =~= s@.subrange(9, 13));
        assert(t.subrange(14, 18) =~= s@.subrange(14, 18));
        assert(t.subrange(19, 23) =~= s@.subrange(19, 23));
        assert(t.subrange(24, 36) =~= s@.subrange(24, 36));
    }
    let g0 = match parse_digits(s, 0, 8, 16) {
        Some(v) => v,
        None => {
            return Err(Error::Invalid(String::from_str("uuid group is not hexadecimal")));
        },
    };
    let g1 = match parse_digits(s, 9, 4, 16) {
        Some(v) => v,
        None => {
            return Err(Error::Invalid(String::from_str("uuid group is not hexadecimal")));
        },
    };
    let g2 = match parse_digits(s, 14, 4, 16) {
        Some(v) => v,
        None => {
            return Err(Error::Invalid(String::from_str("uuid group is not hexadecimal")));
        },
    };
    let g3 = match parse_digits(s, 19, 4, 16) {
        Some(v) => v,
        None => {
            return Err(Error::Invalid(String::from_str("uuid group is not hexadecimal")));
        },
    };
    let g4 = match parse_digits(s, 24, 12, 16) {
        Some(v) => v,
        None => {
            return Err(Error::Invalid(String::from_str("uuid group is not hexadecimal")));
        },
    };
    proof {
        lemma_val_bound(s@.subrange(0, 8), 16);
        lemma_val_bound(s@.subrange(9, 13), 16);
        lemma_val_bound(s@.subrange(14, 18), 16);
        lemma_val_bound(s@.subrange(19, 23), 16);
        lemma_val_bound(s@.subrange(24, 36), 16);
    }
    let hi = g0 * 0x100000000 + g1 * 0x10000 + g2;
    let lo = g3 * 0x1000000000000 + g4;
    Ok(UuidVal { hi, lo })
}

/// Written uuid text reads back as the same identifier.
pub proof fn lemma_uuid_roundtrip(u: UuidVal)
    ensures
        spec_parse_uuid(spec_format_uuid(u)) == Some(u),
{
    lemma_pow_facts();
    let hi = u.hi as nat;
    let lo = u.lo as nat;
    let g0 = hi / 0x100000000;
    let g1 = (hi % 0x100000000) / 0x10000;
    let g2 = hi % 0x10000;
    let g3 = lo / 0x1000000000000;
    let g4 = lo % 0x1000000000000;
    assert(g0 < 0x100000000) by (nonlinear_arith)
        requires
            hi < 0x10000000000000000,
            g0 == hi / 0x100000000,
    ;
    assert(g1 < 0x10000) by (nonlinear_arith)
        requires
            g1 == (hi % 0x100000000) / 0x10000,
    ;
    assert(g2 < 0x10000) by (nonlinear_arith)
        requires
            g2 == hi % 0x10000,
    ;
    assert(g3 < 0x10000) by (nonlinear_arith)
        requires
            lo < 0x10000000000000000,
            g3 == lo / 0x1000000000000,
    ;
    assert(g4 < 0x1000000000000) by (nonlinear_arith)
        requires
            g4 == lo % 0x1000000000000,
    ;
    let s0 = ser_digits(g0, 16, 8);
    let s1 = ser_digits(g1, 16, 4);
    let s2 = ser_digits(g2, 16, 4);
    let s3 = ser_digits(g3, 16, 4);
    let s4 = ser_digits(g4, 16, 12);
    lemma_ser_digits_len(g0, 16, 8);
    lemma_ser_digits_len(g1, 16, 4);
    lemma_ser_digits_len(g2, 16, 4);
    lemma_ser_digits_len(g3, 16, 4);
    lemma_ser_digits_len(g4, 16, 12);
    let t = spec_format_uuid(u);
    assert(t == s0 + seq!['-'] + s1 + seq!['-'] + s2 + seq!['-'] + s3 + seq!['-'] + s4);
    assert(t.len() == 36);
    lemma_ser_digits_chars(g4, 16, 12);
    assert(t[35] == s4[11]);
    assert(digit_of(t.last()) is Some);
    lemma_trimmed_digits(t);
    assert(t[8] == '-' && t[13] == '-' && t[18] == '-' && t[23] == '-');
    assert(t.subrange(0, 8) =~= s0);
    assert(t.subrange(9, 13) =~= s1);
    assert(t.subrange(14, 18) =~= s2);
    assert(t.subrange(19, 23) =~= s3);
    assert(t.subrange(24, 36) =~= s4);
    lemma_ser_val(g0, 16, 8);
    lemma_ser_val(g1, 16, 4);
    lemma_ser_val(g2, 16, 4);
    lemma_ser_val(g3, 16, 4);
    lemma_ser_val(g4, 16, 12);
    assert(hi == g0 * 0x100000000 + hi % 0x100000000) by (nonlinear_arith)
        requires
            g0 == hi / 0x100000000,
    ;
    assert(hi % 0x100000000 == g1 * 0x10000 + (hi % 0x100000000) % 0x10000) by (nonlinear_arith)
        requires
            g1 == (hi % 0x100000000) / 0x10000,
    ;
    assert((hi % 0x100000000) % 0x10000 == hi % 0x10000) by (nonlinear_arith);
    assert(lo == g3 * 0x1000000000000 + g4) by (nonlinear_arith)
        requires
            g3 == lo / 0x1000000000000,
            g4 == lo % 0x1000000000000,
    ;
    assert(spec_parse_uuid(t) == Some(u));
}

/// The whole runtime handle, rendered and read back field by field.
pub proof fn lemma_handle_roundtrip(h: RuntimeHandle)
    requires
        h.pid >= 0,
    ensures
        spec_parse_port(spec_format_port(h.port)) == Some(h.port),
        spec_parse_uuid(spec_format_uuid(h.uuid)) == Some(h.uuid),
        spec_parse_pid(spec_format_pid(h.pid)) == Some(h.pid),
{
    lemma_port_roundtrip(h.port);
    lemma_uuid_roundtrip(h.uuid);
    lemma_pid_roundtrip(h.pid);
}

} // verus!

