//! Reading numbers and addresses out of bytes of text.

use crate::net::tcp::Ipv4;
use vstd::prelude::*;

verus! {

/// ASCII white space: blank, tab, line feed, vertical tab, form feed,
/// carriage return.
pub open spec fn is_space(b: u8) -> bool {
    b == 0x20 || (0x09 <= b <= 0x0d)
}

/// Where the segment that starts at `from` ends: at the first `sep` from
/// there on, or at `to` if there is none before it.
pub open spec fn seg_end(s: Seq<u8>, from: int, to: int, sep: u8) -> int
    decreases to - from,
{
    if from >= to || s[from] == sep {
        from
    } else {
        seg_end(s, from + 1, to, sep)
    }
}

/// The segment end lies between `from` and `to`, holds `sep` unless it is
/// `to`, and no byte before it is `sep`.
pub proof fn lemma_seg_end(s: Seq<u8>, from: int, to: int, sep: u8)
    requires
        from <= to,
    ensures
        from <= seg_end(s, from, to, sep) <= to,
        seg_end(s, from, to, sep) < to ==> s[seg_end(s, from, to, sep)] == sep,
        forall|i: int| from <= i < seg_end(s, from, to, sep) ==> s[i] != sep,
    decreases to - from,
{
    if from < to && s[from] != sep {
        lemma_seg_end(s, from + 1, to, sep);
    }
}

/// The end of the segment of `s[..to]` that starts at `from`.
pub fn find_from(s: &[u8], from: usize, to: usize, sep: u8) -> (end: usize)
    requires
        from <= to <= s@.len(),
    ensures
        end == seg_end(s@, from as int, to as int, sep),
        from <= end <= to,
{
    let mut i = from;
    while i < to && s[i] != sep
        invariant
            from <= i <= to <= s@.len(),
            seg_end(s@, from as int, to as int, sep) == seg_end(s@, i as int, to as int, sep),
        decreases to - i,
    {
        i += 1;
    }
    i
}

/// Whether `sep` occurs in `s[from..to]`.
pub open spec fn occurs(s: Seq<u8>, from: int, to: int, sep: u8) -> bool {
    seg_end(s, from, to, sep) < to
}

/// The start of `s[from..to]` without leading white space.
pub open spec fn trimmed_start(s: Seq<u8>, from: int, to: int) -> int
    decreases to - from,
{
    if from >= to || !is_space(s[from]) {
        from
    } else {
        trimmed_start(s, from + 1, to)
    }
}

/// The end of `s[from..to]` without trailing white space.
pub open spec fn trimmed_end(s: Seq<u8>, from: int, to: int) -> int
    decreases to - from,
{
    if from >= to || !is_space(s[to - 1]) {
        to
    } else {
        trimmed_end(s, from, to - 1)
    }
}

fn space(b: u8) -> (r: bool)
    ensures
        r == is_space(b),
{
    b == 0x20 || (0x09 <= b && b <= 0x0d)
}

/// The window `s[from..to]` without white space at either end.
pub fn trim(s: &[u8], from: usize, to: usize) -> (r: (usize, usize))
    requires
        from <= to <= s@.len(),
    ensures
        r.0 == trimmed_start(s@, from as int, to as int),
        r.1 == trimmed_end(s@, r.0 as int, to as int),
        from <= r.0 <= r.1 <= to,
{
    let mut lo = from;
    while lo < to && space(s[lo])
        invariant
            from <= lo <= to <= s@.len(),
            trimmed_start(s@, from as int, to as int) == trimmed_start(s@, lo as int, to as int),
        decreases to - lo,
    {
        lo += 1;
    }
    let mut hi = to;
    while lo < hi && space(s[hi - 1])
        invariant
            lo <= hi <= to <= s@.len(),
            trimmed_end(s@, lo as int, to as int) == trimmed_end(s@, lo as int, hi as int),
        decreases hi - lo,
    {
        hi -= 1;
    }
    (lo, hi)
}

/// Whether a byte is a decimal digit.
pub open spec fn is_digit(b: u8) -> bool {
    0x30 <= b <= 0x39
}

/// The number that decimal digits spell.
pub open spec fn dec_value(s: Seq<u8>) -> nat
    decreases s.len(),
{
    if s.len() == 0 {
        0
    } else {
        dec_value(s.drop_last()) * 10 + (s.last() - 0x30) as nat
    }
}

/// Whether every byte is a decimal digit.
pub open spec fn all_digits(s: Seq<u8>) -> bool {
    forall|i: int| 0 <= i < s.len() ==> is_digit(#[trigger] s[i])
}

/// A decimal number of at most eight bits as the standard library reads
/// one: an optional `+`, then one digit or more, the whole no more than 255.
pub open spec fn dec_u8(s: Seq<u8>) -> Option<u8> {
    let digits = if s.len() > 0 && s[0] == 0x2b {
        s.skip(1)
    } else {
        s
    };
    if digits.len() > 0 && all_digits(digits) && dec_value(digits) <= 255 {
        Some(dec_value(digits) as u8)
    } else {
        None
    }
}

/// One number of a dotted address: one to three digits, no zero in front of
/// another digit, no more than 255.
pub open spec fn octet(s: Seq<u8>) -> Option<u8> {
    if 1 <= s.len() <= 3 && all_digits(s) && (s.len() == 1 || s[0] != 0x30) && dec_value(s)
        <= 255 {
        Some(dec_value(s) as u8)
    } else {
        None
    }
}

proof fn lemma_dec_value_grows(s: Seq<u8>, n: int)
    requires
        0 <= n <= s.len(),
        all_digits(s),
    ensures
        dec_value(s.take(n)) <= dec_value(s),
    decreases s.len() - n,
{
    if n < s.len() {
        lemma_dec_value_grows(s, n + 1);
        assert(s.take(n + 1).drop_last() =~= s.take(n));
    } else {
        assert(s.take(n) =~= s);
    }
}

/// The value of the digits `s[from..to]` if these are digits, at least one,
/// and spell no more than 255.
fn read_digits(s: &[u8], from: usize, to: usize) -> (r: Option<u8>)
    requires
        from <= to <= s@.len(),
    ensures
        r == (if from < to && all_digits(s@.subrange(from as int, to as int)) && dec_value(
            s@.subrange(from as int, to as int),
        ) <= 255 {
            Some(dec_value(s@.subrange(from as int, to as int)) as u8)
        } else {
            None::<u8>
        }),
{
    let ghost text = s@.subrange(from as int, to as int);
    if from == to {
        return None;
    }
    let mut value: u16 = 0;
    let mut i = from;
    while i < to
        invariant
            from <= i <= to <= s@.len(),
            text == s@.subrange(from as int, to as int),
            all_digits(text.take(i - from)),
            value == dec_value(text.take(i - from)),
            value <= 255,
        decreases to - i,
    {
        let b = s[i];
        let ghost next = text.take(i - from + 1);
        assert(next.drop_last() =~= text.take(i - from));
        assert(next.last() == b);
        if !(0x30 <= b && b <= 0x39) {
            assert(!is_digit(text[i - from]));
            return None;
        }
        value = value * 10 + (b - 0x30) as u16;
        if value > 255 {
            proof {
                if all_digits(text) {
                    lemma_dec_value_grows(text, i - from + 1);
                }
            }
            return None;
        }
        assert forall|k: int| 0 <= k < next.len() implies is_digit(#[trigger] next[k]) by {
            if k < next.len() - 1 {
                assert(next[k] == text.take(i - from)[k]);
            }
        }
        i += 1;
    }
    assert(text.take(to - from) =~= text);
    Some(value as u8)
}

/// Reads a decimal number of at most eight bits from `s[from..to]`.
pub fn read_dec_u8(s: &[u8], from: usize, to: usize) -> (r: Option<u8>)
    requires
        from <= to <= s@.len(),
    ensures
        r == dec_u8(s@.subrange(from as int, to as int)),
{
    let ghost text = s@.subrange(from as int, to as int);
    if from < to && s[from] == 0x2b {
        assert(text.skip(1) =~= s@.subrange(from + 1, to as int));
        read_digits(s, from + 1, to)
    } else {
        read_digits(s, from, to)
    }
}

/// Reads one number of a dotted address from `s[from..to]`.
pub fn read_octet(s: &[u8], from: usize, to: usize) -> (r: Option<u8>)
    requires
        from <= to <= s@.len(),
    ensures
        r == octet(s@.subrange(from as int, to as int)),
{
    if to - from < 1 || to - from > 3 {
        return None;
    }
    if to - from > 1 && s[from] == 0x30 {
        return None;
    }
    read_digits(s, from, to)
}

/// The address that the four numbers `a.b.c.d` make.
pub open spec fn quad(a: u8, b: u8, c: u8, d: u8) -> Ipv4 {
    (a * 0x100_0000 + b * 0x1_0000 + c * 0x100 + d) as u32
}

/// A dotted address: four numbers with a dot between each two, and nothing
/// else.
pub open spec fn dotted(s: Seq<u8>) -> Option<Ipv4> {
    let n = s.len() as int;
    let e1 = seg_end(s, 0, n, 0x2e);
    let e2 = seg_end(s, e1 + 1, n, 0x2e);
    let e3 = seg_end(s, e2 + 1, n, 0x2e);
    if e1 < n && e2 < n && e3 < n && !occurs(s, e3 + 1, n, 0x2e) {
        match (
            octet(s.subrange(0, e1)),
            octet(s.subrange(e1 + 1, e2)),
            octet(s.subrange(e2 + 1, e3)),
            octet(s.subrange(e3 + 1, n)),
        ) {
            (Some(a), Some(b), Some(c), Some(d)) => Some(quad(a, b, c, d)),
            _ => None,
        }
    } else {
        None
    }
}

/// Reads a dotted address from `s[from..to]`.
pub fn read_dotted(s: &[u8], from: usize, to: usize) -> (r: Option<Ipv4>)
    requires
        from <= to <= s@.len(),
    ensures
        r == dotted(s@.subrange(from as int, to as int)),
{
    let ghost text = s@.subrange(from as int, to as int);
    let ghost n = text.len() as int;
    let e1 = find_from(s, from, to, 0x2e);
    proof {
        lemma_window(s@, from as int, to as int, from as int, 0x2e);
    }
    if e1 >= to {
        return None;
    }
    let e2 = find_from(s, e1 + 1, to, 0x2e);
    proof {
        lemma_window(s@, from as int, to as int, e1 + 1, 0x2e);
    }
    if e2 >= to {
        return None;
    }
    let e3 = find_from(s, e2 + 1, to, 0x2e);
    proof {
        lemma_window(s@, from as int, to as int, e2 + 1, 0x2e);
    }
    if e3 >= to {
        return None;
    }
    let e4 = find_from(s, e3 + 1, to, 0x2e);
    proof {
        lemma_window(s@, from as int, to as int, e3 + 1, 0x2e);
    }
    if e4 < to {
        return None;
    }
    proof {
        assert(text.subrange(0, e1 - from) =~= s@.subrange(from as int, e1 as int));
        assert(text.subrange(e1 + 1 - from, e2 - from) =~= s@.subrange(e1 + 1, e2 as int));
        assert(text.subrange(e2 + 1 - from, e3 - from) =~= s@.subrange(e2 + 1, e3 as int));
        assert(text.subrange(e3 + 1 - from, n) =~= s@.subrange(e3 + 1, to as int));
    }
    let a = read_octet(s, from, e1);
    let b = read_octet(s, e1 + 1, e2);
    let c = read_octet(s, e2 + 1, e3);
    let d = read_octet(s, e3 + 1, to);
    match (a, b, c, d) {
        (Some(a), Some(b), Some(c), Some(d)) => Some(
            (a as u32) * 0x100_0000 + (b as u32) * 0x1_0000 + (c as u32) * 0x100 + (d as u32),
        ),
        _ => None,
    }
}

/// Segment ends do not depend on where the window is cut out of the text:
/// they move with it.
pub proof fn lemma_window(s: Seq<u8>, from: int, to: int, at: int, sep: u8)
    requires
        0 <= from <= at <= to <= s.len(),
    ensures
        seg_end(s.subrange(from, to), at - from, to - from, sep) == seg_end(s, at, to, sep) - from,
    decreases to - at,
{
    if at < to && s[at] != sep {
        lemma_window(s, from, to, at + 1, sep);
    }
}

/// The value of a hexadecimal digit.
pub open spec fn hex_digit(b: u8) -> Option<u8> {
    if 0x30 <= b <= 0x39 {
        Some((b - 0x30) as u8)
    } else if 0x61 <= b <= 0x66 {
        Some((b - 0x61 + 10) as u8)
    } else if 0x41 <= b <= 0x46 {
        Some((b - 0x41 + 10) as u8)
    } else {
        None
    }
}

/// Reads one hexadecimal digit.
pub fn read_hex_digit(b: u8) -> (r: Option<u8>)
    ensures
        r == hex_digit(b),
{
    if 0x30 <= b && b <= 0x39 {
        Some(b - 0x30)
    } else if 0x61 <= b && b <= 0x66 {
        Some(b - 0x61 + 10)
    } else if 0x41 <= b && b <= 0x46 {
        Some(b - 0x41 + 10)
    } else {
        None
    }
}

/// Whether every byte is a hexadecimal digit.
pub open spec fn all_hex(s: Seq<u8>) -> bool {
    forall|i: int| 0 <= i < s.len() ==> hex_digit(#[trigger] s[i]).is_some()
}

/// The number that hexadecimal digits spell.
pub open spec fn hex_value(s: Seq<u8>) -> nat
    decreases s.len(),
{
    if s.len() == 0 {
        0
    } else {
        hex_value(s.drop_last()) * 16 + hex_digit(s.last()).unwrap_or(0) as nat
    }
}

/// A hexadecimal number of at most eight bits as the standard library reads
/// one: an optional `+`, then one digit or more, the whole no more than
/// `ff`.
pub open spec fn hex_u8(s: Seq<u8>) -> Option<u8> {
    let digits = if s.len() > 0 && s[0] == 0x2b {
        s.skip(1)
    } else {
        s
    };
    if digits.len() > 0 && all_hex(digits) && hex_value(digits) <= 255 {
        Some(hex_value(digits) as u8)
    } else {
        None
    }
}

proof fn lemma_hex_value_grows(s: Seq<u8>, n: int)
    requires
        0 <= n <= s.len(),
    ensures
        hex_value(s.take(n)) <= hex_value(s),
    decreases s.len() - n,
{
    if n < s.len() {
        lemma_hex_value_grows(s, n + 1);
        assert(s.take(n + 1).drop_last() =~= s.take(n));
    } else {
        assert(s.take(n) =~= s);
    }
}

fn read_hex_digits(s: &[u8], from: usize, to: usize) -> (r: Option<u8>)
    requires
        from <= to <= s@.len(),
    ensures
        r == (if from < to && all_hex(s@.subrange(from as int, to as int)) && hex_value(
            s@.subrange(from as int, to as int),
        ) <= 255 {
            Some(hex_value(s@.subrange(from as int, to as int)) as u8)
        } else {
            None::<u8>
        }),
{
    let ghost text = s@.subrange(from as int, to as int);
    if from == to {
        return None;
    }
    let mut value: u16 = 0;
    let mut i = from;
    while i < to
        invariant
            from <= i <= to <= s@.len(),
            text == s@.subrange(from as int, to as int),
            all_hex(text.take(i - from)),
            value == hex_value(text.take(i - from)),
            value <= 255,
        decreases to - i,
    {
        let ghost next = text.take(i - from + 1);
        assert(next.drop_last() =~= text.take(i - from));
        assert(next.last() == s@[i as int]);
        let Some(digit) = read_hex_digit(s[i]) else {
            assert(hex_digit(text[i - from]).is_none());
            return None;
        };
        value = value * 16 + digit as u16;
        if value > 255 {
            proof {
                lemma_hex_value_grows(text, i - from + 1);
            }
            return None;
        }
        assert forall|k: int| 0 <= k < next.len() implies hex_digit(#[trigger] next[k]).is_some() by {
            if k < next.len() - 1 {
                assert(next[k] == text.take(i - from)[k]);
            }
        }
        i += 1;
    }
    assert(text.take(to - from) =~= text);
    Some(value as u8)
}

/// Reads a hexadecimal number of at most eight bits from `s[from..to]`.
pub fn read_hex_u8(s: &[u8], from: usize, to: usize) -> (r: Option<u8>)
    requires
        from <= to <= s@.len(),
    ensures
        r == hex_u8(s@.subrange(from as int, to as int)),
{
    let ghost text = s@.subrange(from as int, to as int);
    if from < to && s[from] == 0x2b {
        assert(text.skip(1) =~= s@.subrange(from + 1, to as int));
        read_hex_digits(s, from + 1, to)
    } else {
        read_hex_digits(s, from, to)
    }
}

/// Whether two runs of bytes are the same.
pub fn same_bytes(a: &[u8], b: &[u8]) -> (r: bool)
    ensures
        r == (a@ == b@),
{
    if a.len() != b.len() {
        return false;
    }
    let mut i: usize = 0;
    while i < a.len()
        invariant
            i <= a@.len(),
            a@.len() == b@.len(),
            forall|k: int| 0 <= k < i ==> a@[k] == b@[k],
        decreases a@.len() - i,
    {
        if a[i] != b[i] {
            return false;
        }
        i += 1;
    }
    assert(a@ =~= b@);
    true
}

} // verus!
