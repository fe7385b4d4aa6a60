//! Reading a number out of text: the first whitespace-delimited field of a
//! process's scheduling statistics is its cumulative on-CPU time in
//! nanoseconds, and a sensor file holds one decimal value.

use vstd::prelude::*;

verus! {

/// ASCII whitespace: space, tab, line feed, vertical tab, form feed, carriage return.
pub open spec fn is_space(b: u8) -> bool {
    b == 0x20 || b == 0x09 || b == 0x0a || b == 0x0b || b == 0x0c || b == 0x0d
}

/// The first position at or after `i` that holds no whitespace, or the length.
pub open spec fn skip_space(s: Seq<u8>, i: int) -> int
    decreases s.len() - i,
{
    if i >= s.len() || i < 0 {
        s.len() as int
    } else if is_space(s[i]) {
        skip_space(s, i + 1)
    } else {
        i
    }
}

/// The first position at or after `i` that holds whitespace, or the length.
pub open spec fn skip_word(s: Seq<u8>, i: int) -> int
    decreases s.len() - i,
{
    if i >= s.len() || i < 0 {
        s.len() as int
    } else if is_space(s[i]) {
        i
    } else {
        skip_word(s, i + 1)
    }
}

/// The first whitespace-delimited field of `s`, empty where there is none.
pub open spec fn first_field(s: Seq<u8>) -> Seq<u8> {
    let a = skip_space(s, 0);
    s.subrange(a, skip_word(s, a))
}

pub open spec fn is_digit(b: u8) -> bool {
    0x30 <= b <= 0x39
}

/// The value of a string of decimal digits.
pub open spec fn digits_value(d: Seq<u8>) -> int
    decreases d.len(),
{
    if d.len() == 0 {
        0
    } else {
        digits_value(d.drop_last()) * 10 + (d.last() - 0x30)
    }
}

/// The digits of a field, after an optional leading `+`.
pub open spec fn unsigned_body(d: Seq<u8>) -> Seq<u8> {
    if d.len() > 0 && d[0] == 0x2b {
        d.subrange(1, d.len() as int)
    } else {
        d
    }
}

/// The unsigned 64-bit decimal that a field spells, if any: an optional `+`
/// and one or more digits whose value fits.
pub open spec fn decimal_of(d: Seq<u8>) -> Option<u64> {
    let b = unsigned_body(d);
    if b.len() > 0 && (forall|i: int| 0 <= i < b.len() ==> is_digit(#[trigger] b[i])) && digits_value(b)
        <= u64::MAX {
        Some(digits_value(b) as u64)
    } else {
        None
    }
}

/// The number that the first field of `s` spells, if it is one.
pub open spec fn first_u64_of(s: Seq<u8>) -> Option<u64> {
    decimal_of(first_field(s))
}

fn space(b: u8) -> (r: bool)
    ensures
        r == is_space(b),
{
    b == 0x20 || b == 0x09 || b == 0x0a || b == 0x0b || b == 0x0c || b == 0x0d
}

/// Parses `s[a..b]` as an unsigned decimal with an optional leading `+`.
fn parse_decimal(s: &Vec<u8>, a: usize, b: usize) -> (r: Option<u64>)
    requires
        a <= b <= s@.len(),
    ensures
        r == decimal_of(s@.subrange(a as int, b as int)),
{
    let ghost field = s@.subrange(a as int, b as int);
    let mut i: usize = a;
    if i < b && s[i] == 0x2b {
        i = i + 1;
    }
    let ghost body = s@.subrange(i as int, b as int);
    assert(body =~= unsigned_body(field));
    if i == b {
        return None;
    }
    let start = i;
    let mut value: u64 = 0;
    while i < b
        invariant
            start <= i <= b <= s@.len(),
            body == s@.subrange(start as int, b as int),
            body == unsigned_body(field),
            field == s@.subrange(a as int, b as int),
            body.len() > 0,
            forall|k: int| 0 <= k < i - start ==> is_digit(#[trigger] body[k]),
            value == digits_value(s@.subrange(start as int, i as int)),
        decreases b - i,
    {
        let c = s[i];
        proof {
            assert(s@.subrange(start as int, i + 1).drop_last() =~= s@.subrange(start as int, i as int));
        }
        if c < 0x30 || c > 0x39 {
            assert(!is_digit(body[i - start]));
            return None;
        }
        let digit = (c - 0x30) as u64;
        if value > (u64::MAX - digit) / 10 {
            proof {
                let k = (i + 1 - start) as int;
                assert(body.subrange(0, k) =~= s@.subrange(start as int, i + 1));
                assert(value * 10 + digit > u64::MAX) by (nonlinear_arith)
                    requires value > (u64::MAX - digit) / 10, digit <= 9;
                if forall|j: int| 0 <= j < body.len() ==> is_digit(#[trigger] body[j]) {
                    lemma_prefix_value_bound(body, k);
                }
            }
            return None;
        }
        value = value * 10 + digit;
        i = i + 1;
    }
    assert(s@.subrange(start as int, i as int) =~= body);
    Some(value)
}

/// The position of the first non-whitespace byte at or after `from`.
fn skip_spaces(s: &Vec<u8>, from: usize) -> (r: usize)
    requires
        from <= s@.len(),
    ensures
        from <= r <= s@.len(),
        r == skip_space(s@, from as int),
        r < s@.len() ==> !is_space(s@[r as int]),
{
    let n = s.len();
    let mut a: usize = from;
    while a < n && space(s[a])
        invariant
            n == s@.len(),
            from <= a <= n,
            skip_space(s@, from as int) == skip_space(s@, a as int),
        decreases n - a,
    {
        a = a + 1;
    }
    a
}

/// The position of the first whitespace byte at or after `from`.
fn skip_field(s: &Vec<u8>, from: usize) -> (r: usize)
    requires
        from <= s@.len(),
    ensures
        from <= r <= s@.len(),
        r == skip_word(s@, from as int),
        from < s@.len() && !is_space(s@[from as int]) ==> from < r,
{
    let n = s.len();
    let mut b: usize = from;
    while b < n && !space(s[b])
        invariant
            n == s@.len(),
            from <= b <= n,
            skip_word(s@, from as int) == skip_word(s@, b as int),
            from < n && !is_space(s@[from as int]) && b == from ==> skip_word(s@, from as int) == skip_word(s@, from + 1),
        decreases n - b,
    {
        b = b + 1;
    }
    b
}

/// Parses the first whitespace-delimited field of `s` as an unsigned decimal.
pub fn parse_first_u64(s: &Vec<u8>) -> (r: Option<u64>)
    ensures
        r == first_u64_of(s@),
{
    let a = skip_spaces(s, 0);
    let b = skip_field(s, a);
    parse_decimal(s, a, b)
}

/// The process ids that the fields of `s` from position `i` on spell, in
/// order; fields that are no 32-bit unsigned decimal are left out.
pub open spec fn pids_from(s: Seq<u8>, i: int) -> Seq<u32>
    decreases s.len() - i,
{
    let a = skip_space(s, i);
    let b = skip_word(s, a);
    if i < 0 || a >= s.len() || b <= i || b > s.len() {
        Seq::empty()
    } else {
        let rest = pids_from(s, b);
        match decimal_of(s.subrange(a, b)) {
            Some(v) => if v <= u32::MAX {
                seq![v as u32] + rest
            } else {
                rest
            },
            None => rest,
        }
    }
}

/// Parses a list of process ids, one per whitespace-delimited field.
pub fn parse_pid_list(s: &Vec<u8>) -> (r: Vec<u32>)
    ensures
        r@ == pids_from(s@, 0),
{
    let n = s.len();
    let mut out: Vec<u32> = Vec::new();
    let mut i: usize = 0;
    while i < n
        invariant
            n == s@.len(),
            i <= n,
            pids_from(s@, 0) == out@ + pids_from(s@, i as int),
        decreases n - i,
    {
        let a = skip_spaces(s, i);
        if a >= n {
            assert(pids_from(s@, i as int) == Seq::<u32>::empty());
            assert(out@ + Seq::<u32>::empty() =~= out@);
            return out;
        }
        let b = skip_field(s, a);
        let v = parse_decimal(s, a, b);
        let ghost before = out@;
        match v {
            Some(x) => {
                if x <= 0xFFFF_FFFF {
                    out.push(x as u32);
                    assert(before + (seq![x as u32] + pids_from(s@, b as int)) =~= out@ + pids_from(s@, b as int));
                }
            },
            None => {},
        }
        i = b;
    }
    assert(pids_from(s@, i as int) == Seq::<u32>::empty());
    assert(out@ + Seq::<u32>::empty() =~= out@);
    out
}

/// A prefix of a digit string never has a larger value than the whole string.
proof fn lemma_prefix_value_bound(d: Seq<u8>, k: int)
    requires
        0 <= k <= d.len(),
        forall|i: int| 0 <= i < d.len() ==> is_digit(#[trigger] d[i]),
    ensures
        digits_value(d.subrange(0, k)) <= digits_value(d),
        digits_value(d.subrange(0, k)) >= 0,
    decreases d.len() - k,
{
    if k < d.len() {
        lemma_prefix_value_bound(d, k + 1);
        let p = d.subrange(0, k + 1);
        assert(p.drop_last() =~= d.subrange(0, k));
        lemma_value_nonnegative(d.subrange(0, k));
    } else {
        assert(d.subrange(0, k) =~= d);
        lemma_value_nonnegative(d);
    }
}

proof fn lemma_value_nonnegative(d: Seq<u8>)
    requires
        forall|i: int| 0 <= i < d.len() ==> is_digit(#[trigger] d[i]),
    ensures
        digits_value(d) >= 0,
    decreases d.len(),
{
    if d.len() > 0 {
        let p = d.drop_last();
        assert forall|i: int| 0 <= i < p.len() implies is_digit(#[trigger] p[i]) by {
            assert(p[i] == d[i]);
        }
        lemma_value_nonnegative(p);
    }
}

} // verus!
