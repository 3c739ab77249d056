//! Positional digit strings: the shared core of every persisted scalar.
//!
//! The topology record stores numbers as fixed-width lower-case
//! hexadecimal; the per-node port and pid files store decimal text; the
//! uuid file stores hexadecimal groups.  All of them reduce to writing
//! and reading a run of digit characters in some base, which this
//! module specifies and implements once.

use vstd::prelude::*;

verus! {

/// The lower-case character for digit value `v` (defined for `v < 16`).
pub open spec fn digit_char(v: nat) -> char {
    if v == 0 {
        '0'
    } else if v == 1 {
        '1'
    } else if v == 2 {
        '2'
    } else if v == 3 {
        '3'
    } else if v == 4 {
        '4'
    } else if v == 5 {
        '5'
    } else if v == 6 {
        '6'
    } else if v == 7 {
        '7'
    } else if v == 8 {
        '8'
    } else if v == 9 {
        '9'
    } else if v == 10 {
        'a'
    } else if v == 11 {
        'b'
    } else if v == 12 {
        'c'
    } else if v == 13 {
        'd'
    } else if v == 14 {
        'e'
    } else if v == 15 {
        'f'
    } else {
        '?'
    }
}

/// The value of a digit character, if it is one.
pub open spec fn digit_of(c: char) -> Option<nat> {
    if c == '0' {
        Some(0nat)
    } else if c == '1' {
        Some(1nat)
    } else if c == '2' {
        Some(2nat)
    } else if c == '3' {
        Some(3nat)
    } else if c == '4' {
        Some(4nat)
    } else if c == '5' {
        Some(5nat)
    } else if c == '6' {
        Some(6nat)
    } else if c == '7' {
        Some(7nat)
    } else if c == '8' {
        Some(8nat)
    } else if c == '9' {
        Some(9nat)
    } else if c == 'a' {
        Some(10nat)
    } else if c == 'b' {
        Some(11nat)
    } else if c == 'c' {
        Some(12nat)
    } else if c == 'd' {
        Some(13nat)
    } else if c == 'e' {
        Some(14nat)
    } else if c == 'f' {
        Some(15nat)
    } else {
        None
    }
}

/// `base` raised to `k`.
pub open spec fn pow_of(base: nat, k: nat) -> nat
    decreases k,
{
    if k == 0 {
        1
    } else {
        base * pow_of(base, (k - 1) as nat)
    }
}

/// The `k` digit characters of `n` in `base`, most significant first.
pub open spec fn ser_digits(n: nat, base: nat, k: nat) -> Seq<char>
    decreases k,
{
    if k == 0 {
        Seq::<char>::empty()
    } else {
        ser_digits(n / base, base, (k - 1) as nat).push(digit_char(n % base))
    }
}

/// The number a run of digit characters denotes in `base`, if every
/// character is a digit below `base`.  The empty run denotes zero.
pub open spec fn digits_val(s: Seq<char>, base: nat) -> Option<nat>
    decreases s.len(),
{
    if s.len() == 0 {
        Some(0nat)
    } else {
        match digits_val(s.drop_last(), base) {
            Some(v) => match digit_of(s.last()) {
                Some(d) => if d < base {
                    Some(v * base + d)
                } else {
                    None
                },
                None => None,
            },
            None => None,
        }
    }
}

/// Digit characters are never whitespace.
pub open spec fn is_space(c: char) -> bool {
    c == ' ' || c == '\n' || c == '\r' || c == '\t'
}

pub proof fn lemma_digit_roundtrip(v: nat)
    requires
        v < 16,
    ensures
        digit_of(digit_char(v)) == Some(v),
{
}

pub proof fn lemma_ser_digits_len(n: nat, base: nat, k: nat)
    requires
        2 <= base,
    ensures
        ser_digits(n, base, k).len() == k,
    decreases k,
{
    if k > 0 {
        lemma_ser_digits_len(n / base, base, (k - 1) as nat);
        assert(ser_digits(n, base, k) =~= ser_digits(n / base, base, (k - 1) as nat).push(
            digit_char(n % base),
        ));
    } else {
        assert(ser_digits(n, base, 0) == Seq::<char>::empty());
    }
}

pub proof fn lemma_pow_mono(base: nat, j: nat, k: nat)
    requires
        base >= 1,
        j <= k,
    ensures
        pow_of(base, j) <= pow_of(base, k),
    decreases k,
{
    if j < k {
        lemma_pow_mono(base, j, (k - 1) as nat);
        assert(pow_of(base, k) == base * pow_of(base, (k - 1) as nat));
        assert(base * pow_of(base, (k - 1) as nat) >= 1 * pow_of(base, (k - 1) as nat))
            by (nonlinear_arith)
            requires
                base >= 1,
        ;
    }
}

/// Writing `n` in `k` digits and reading the run back yields `n`.
pub proof fn lemma_ser_val(n: nat, base: nat, k: nat)
    requires
        2 <= base <= 16,
        n < pow_of(base, k),
    ensures
        digits_val(ser_digits(n, base, k), base) == Some(n),
    decreases k,
{
    lemma_ser_digits_len(n, base, k);
    if k == 0 {
        assert(n == 0);
    } else {
        let s = ser_digits(n, base, k);
        let rest = ser_digits(n / base, base, (k - 1) as nat);
        lemma_ser_digits_len(n / base, base, (k - 1) as nat);
        assert(s == rest.push(digit_char(n % base)));
        assert(s.drop_last() =~= rest);
        assert(s.last() == digit_char(n % base));
        assert(n / base < pow_of(base, (k - 1) as nat)) by (nonlinear_arith)
            requires
                base >= 2,
                n < base * pow_of(base, (k - 1) as nat),
        ;
        lemma_ser_val(n / base, base, (k - 1) as nat);
        lemma_digit_roundtrip(n % base);
        assert((n / base) * base + n % base == n) by (nonlinear_arith)
            requires
                base >= 2,
        ;
    }
}

/// A digit run in `base` of length `k` denotes a value below `base^k`.
pub proof fn lemma_val_bound(s: Seq<char>, base: nat)
    requires
        base >= 1,
        digits_val(s, base) is Some,
    ensures
        digits_val(s, base)->Some_0 < pow_of(base, s.len()),
    decreases s.len(),
{
    if s.len() == 0 {
    } else {
        lemma_val_bound(s.drop_last(), base);
        let v = digits_val(s.drop_last(), base)->Some_0;
        let d = digit_of(s.last())->Some_0;
        assert(v * base + d < base * pow_of(base, (s.len() - 1) as nat)) by (nonlinear_arith)
            requires
                base >= 1,
                d < base,
                v < pow_of(base, (s.len() - 1) as nat),
        ;
    }
}

/// If a prefix of `s` is already no digit run, neither is `s`.
pub proof fn lemma_digits_none_extends(s: Seq<char>, j: int, base: nat)
    requires
        0 <= j <= s.len(),
        digits_val(s.subrange(0, j), base) is None,
    ensures
        digits_val(s, base) is None,
    decreases s.len() - j,
{
    if j == s.len() {
        assert(s.subrange(0, j) =~= s);
    } else {
        assert(s.subrange(0, j + 1).drop_last() =~= s.subrange(0, j));
        lemma_digits_none_extends(s, j + 1, base);
    }
}

/// Appends one digit character to `out`.
pub fn push_digit(out: &mut String, v: usize)
    requires
        v < 16,
    ensures
        final(out)@ == old(out)@ + seq![digit_char(v as nat)],
{
    let tbl = "0123456789abcdef";
    proof {
        reveal_strlit("0123456789abcdef");
    }
    let d = tbl.substring_char(v, v + 1);
    proof {
        assert(d@ =~= seq![digit_char(v as nat)]);
    }
    out.append(d);
}

/// Appends the `k`-digit representation of `n` in `base` to `out`.
pub fn push_digits(out: &mut String, n: u64, base: u64, k: usize)
    requires
        2 <= base <= 16,
        (n as nat) < pow_of(base as nat, k as nat),
    ensures
        final(out)@ == old(out)@ + ser_digits(n as nat, base as nat, k as nat),
    decreases k,
{
    if k == 0 {
        proof {
            assert(final(out)@ =~= old(out)@ + ser_digits(n as nat, base as nat, 0));
        }
        return ;
    }
    proof {
        assert((n / base) as nat == (n as nat) / (base as nat));
        assert((n as nat) / (base as nat) < pow_of(base as nat, (k - 1) as nat))
            by (nonlinear_arith)
            requires
                base >= 2,
                (n as nat) < (base as nat) * pow_of(base as nat, (k - 1) as nat),
        ;
    }
    push_digits(out, n / base, base, k - 1);
    push_digit(out, (n % base) as usize);
    proof {
        assert((n % base) as nat == (n as nat) % (base as nat));
        assert(final(out)@ =~= old(out)@ + ser_digits(n as nat, base as nat, k as nat));
    }
}

/// The value of one digit character, executable form.
pub fn digit_value(c: char) -> (r: Option<u8>)
    ensures
        match r {
            Some(d) => digit_of(c) == Some(d as nat) && d < 16,
            None => digit_of(c) is None,
        },
{
    match c {
        '0' => Some(0u8),
        '1' => Some(1u8),
        '2' => Some(2u8),
        '3' => Some(3u8),
        '4' => Some(4u8),
        '5' => Some(5u8),
        '6' => Some(6u8),
        '7' => Some(7u8),
        '8' => Some(8u8),
        '9' => Some(9u8),
        'a' => Some(10u8),
        'b' => Some(11u8),
        'c' => Some(12u8),
        'd' => Some(13u8),
        'e' => Some(14u8),
        'f' => Some(15u8),
        _ => None,
    }
}

/// Reads the `k` characters of `s` starting at `i` as a digit run in
/// `base`.
pub fn parse_digits(s: &str, i: usize, k: usize, base: u64) -> (r: Option<u64>)
    requires
        2 <= base <= 16,
        i + k <= s@.len(),
        i + k <= usize::MAX,
        pow_of(base as nat, k as nat) <= u64::MAX as nat + 1,
    ensures
        match digits_val(s@.subrange(i as int, (i + k) as int), base as nat) {
            Some(v) => r == Some(v as u64),
            None => r is None,
        },
{
    let mut acc: u64 = 0;
    let mut j: usize = 0;
    while j < k
        invariant
            2 <= base <= 16,
            j <= k,
            i + k <= s@.len(),
            i + k <= usize::MAX,
            pow_of(base as nat, k as nat) <= u64::MAX as nat + 1,
            digits_val(s@.subrange(i as int, (i + j) as int), base as nat)
                == Some(acc as nat),
        decreases k - j,
    {
        let sub = Ghost(s@.subrange(i as int, (i + j) as int));
        let c = s.get_char(i + j);
        let d = match digit_value(c) {
            Some(d) => d,
            None => {
                proof {
                    let full = s@.subrange(i as int, (i + k) as int);
                    assert(full.subrange(0, j + 1).drop_last() =~= sub@);
                    assert(full.subrange(0, j + 1).last() == c);
                    lemma_digits_none_extends(full, j + 1, base as nat);
                }
                return None;
            },
        };
        if d as u64 >= base {
            proof {
                let full = s@.subrange(i as int, (i + k) as int);
                assert(full.subrange(0, j + 1).drop_last() =~= sub@);
                assert(full.subrange(0, j + 1).last() == c);
                lemma_digits_none_extends(full, j + 1, base as nat);
            }
            return None;
        }
        proof {
            lemma_val_bound(sub@, base as nat);
            lemma_pow_mono(base as nat, (j + 1) as nat, k as nat);
            assert((acc as nat) * (base as nat) + (d as nat)
                < pow_of(base as nat, (j + 1) as nat)) by (nonlinear_arith)
                requires
                    base >= 2,
                    (d as nat) < (base as nat),
                    (acc as nat) < pow_of(base as nat, j as nat),
                    pow_of(base as nat, (j + 1) as nat)
                        == (base as nat) * pow_of(base as nat, j as nat),
            ;
            assert(s@.subrange(i as int, (i + j + 1) as int).drop_last() =~= sub@);
            assert(s@.subrange(i as int, (i + j + 1) as int).last() == c);
        }
        acc = acc * base + d as u64;
        j = j + 1;
    }
    proof {
        assert(s@.subrange(i as int, (i + j) as int)
            =~= s@.subrange(i as int, (i + k) as int));
    }
    Some(acc)
}


/// `s` without its trailing whitespace.
pub open spec fn trimmed(s: Seq<char>) -> Seq<char>
    decreases s.len(),
{
    if s.len() > 0 && is_space(s.last()) {
        trimmed(s.drop_last())
    } else {
        s
    }
}

/// Every character written by `ser_digits` is a digit character.
pub proof fn lemma_ser_digits_chars(n: nat, base: nat, k: nat)
    requires
        2 <= base <= 16,
    ensures
        forall|i: int|
            0 <= i < ser_digits(n, base, k).len() ==> digit_of(
                #[trigger] ser_digits(n, base, k)[i],
            ) is Some,
    decreases k,
{
    lemma_ser_digits_len(n, base, k);
    if k > 0 {
        let s = ser_digits(n, base, k);
        let rest = ser_digits(n / base, base, (k - 1) as nat);
        lemma_ser_digits_len(n / base, base, (k - 1) as nat);
        assert(s == rest.push(digit_char(n % base)));
        lemma_ser_digits_chars(n / base, base, (k - 1) as nat);
        lemma_digit_roundtrip(n % base);
        assert forall|i: int| 0 <= i < s.len() implies digit_of(#[trigger] s[i]) is Some by {
            if i < k - 1 {
                assert(s[i] == rest[i]);
            } else {
                assert(s[i] == digit_char(n % base));
            }
        }
    }
}

/// A run that ends in a digit character is left unchanged by trimming.
pub proof fn lemma_trimmed_digits(s: Seq<char>)
    requires
        s.len() > 0,
        digit_of(s.last()) is Some,
    ensures
        trimmed(s) == s,
{
}

/// Executable whitespace test.
pub fn is_space_char(c: char) -> (r: bool)
    ensures
        r == is_space(c),
{
    c == ' ' || c == '\n' || c == '\r' || c == '\t'
}

/// The length of `s` once trailing whitespace is dropped.
pub fn trim_len(s: &str) -> (r: usize)
    ensures
        r <= s@.len(),
        trimmed(s@) == s@.subrange(0, r as int),
{
    let mut end = s.unicode_len();
    proof {
        assert(s@.subrange(0, end as int) =~= s@);
    }
    while end > 0 && is_space_char(s.get_char(end - 1))
        invariant
            end <= s@.len(),
            trimmed(s@) == trimmed(s@.subrange(0, end as int)),
        decreases end,
    {
        proof {
            let sub = s@.subrange(0, end as int);
            assert(sub.last() == s@[end - 1]);
            assert(sub.drop_last() =~= s@.subrange(0, end - 1));
        }
        end = end - 1;
    }
    proof {
        let sub = s@.subrange(0, end as int);
        if end > 0 {
            assert(sub.last() == s@[end - 1]);
        }
        assert(trimmed(sub) == sub);
    }
    end
}

} // verus!

