//! The exclude file: one address, block or range of addresses per line,
//! never to be scanned.

use crate::net::ip::{block_of_prefix, cidr_block, host_mask};
use crate::net::range::{ips_ok, Ipv4Ranges, Ranges};
use crate::net::tcp::Ipv4;
use crate::net::text::{
    dec_u8, dotted, find_from, lemma_window, read_dec_u8, read_dotted, seg_end, trim, trimmed_end,
    trimmed_start,
};
use core::ops::Range;
use vstd::prelude::*;
use vstd::string::StringSliceAdditionalSpecFns;

verus! {

/// What is wrong with a line.
#[derive(Clone, Copy, Debug, PartialEq, Eq, Structural)]
pub enum ExcludeErrorKind {
    /// It holds both `/` and `-`.
    BothForms,
    /// What should be a dotted address is none.
    BadAddress,
    /// What follows `/` is no number from 0 to 32.
    BadPrefix,
    /// The range starts after it ends.
    StartAfterEnd,
}

/// Why the file was refused: the first line at fault, counted from zero.
#[derive(Clone, Copy, Debug, PartialEq, Eq, Structural)]
pub struct ExcludeError {
    pub line: usize,
    pub kind: ExcludeErrorKind,
}

/// The addresses that an entry stands for. An entry is `A.B.C.D`,
/// `A.B.C.D/n` with `n` from 0 to 32, or `A.B.C.D-E.F.G.H` with the first
/// address not after the second.
pub open spec fn entry(t: Seq<u8>) -> Result<Range<Ipv4>, ExcludeErrorKind> {
    let n = t.len() as int;
    let slash = seg_end(t, 0, n, 0x2f);
    let hyphen = seg_end(t, 0, n, 0x2d);
    if slash < n && hyphen < n {
        Err(ExcludeErrorKind::BothForms)
    } else if slash < n {
        match dec_u8(t.subrange(slash + 1, n)) {
            Some(prefix) if prefix <= 32 => match dotted(t.subrange(0, slash)) {
                Some(ip) => Ok(block_of_prefix(ip, prefix)),
                None => Err(ExcludeErrorKind::BadAddress),
            },
            _ => Err(ExcludeErrorKind::BadPrefix),
        }
    } else if hyphen < n {
        match (dotted(t.subrange(0, hyphen)), dotted(t.subrange(hyphen + 1, n))) {
            (Some(start), Some(end)) => if start <= end {
                Ok(Range { start, end })
            } else {
                Err(ExcludeErrorKind::StartAfterEnd)
            },
            _ => Err(ExcludeErrorKind::BadAddress),
        }
    } else {
        match dotted(t) {
            Some(ip) => Ok(Range { start: ip, end: ip }),
            None => Err(ExcludeErrorKind::BadAddress),
        }
    }
}

/// What the line `s[from..to]` holds: nothing, if it is empty but for white
/// space and a comment, which starts at `#`; or else its entry, which is
/// what stands before the comment, without white space around it.
pub open spec fn line_entry(s: Seq<u8>, from: int, to: int) -> Option<
    Result<Range<Ipv4>, ExcludeErrorKind>,
> {
    let hash = seg_end(s, from, to, 0x23);
    let lo = trimmed_start(s, from, hash);
    let hi = trimmed_end(s, lo, hash);
    if lo >= hi {
        None
    } else {
        Some(entry(s.subrange(lo, hi)))
    }
}

/// The ranges of the lines from position `from` on, the line there being
/// line number `line`; or the first error.
pub open spec fn parse_from(s: Seq<u8>, from: int, line: nat) -> Result<
    Seq<Range<Ipv4>>,
    ExcludeError,
>
    decreases s.len() - from,
{
    if from > s.len() {
        Ok(Seq::empty())
    } else {
        let end = seg_end(s, from, s.len() as int, 0x0a);
        let rest = if from <= end < s.len() {
            parse_from(s, end + 1, line + 1)
        } else {
            Ok(Seq::empty())
        };
        match line_entry(s, from, end) {
            Some(Err(kind)) => Err(ExcludeError { line: line as usize, kind }),
            Some(Ok(range)) => followed_by(seq![range], rest),
            None => rest,
        }
    }
}

/// The ranges of an exclude file, in the order of its lines; or the first
/// error.
pub open spec fn parse_spec(s: Seq<u8>) -> Result<Seq<Range<Ipv4>>, ExcludeError> {
    parse_from(s, 0, 0)
}

/// Reads the entry `s[from..to]`.
fn read_entry(s: &[u8], from: usize, to: usize) -> (r: Result<Range<Ipv4>, ExcludeErrorKind>)
    requires
        from <= to <= s@.len(),
    ensures
        r == entry(s@.subrange(from as int, to as int)),
{
    let ghost t = s@.subrange(from as int, to as int);
    let ghost n = t.len() as int;
    let slash = find_from(s, from, to, 0x2f);
    let hyphen = find_from(s, from, to, 0x2d);
    proof {
        lemma_window(s@, from as int, to as int, from as int, 0x2f);
        lemma_window(s@, from as int, to as int, from as int, 0x2d);
    }
    if slash < to && hyphen < to {
        Err(ExcludeErrorKind::BothForms)
    } else if slash < to {
        proof {
            assert(t.subrange(slash + 1 - from, n) =~= s@.subrange(slash + 1, to as int));
            assert(t.subrange(0, slash - from) =~= s@.subrange(from as int, slash as int));
        }
        match read_dec_u8(s, slash + 1, to) {
            Some(prefix) => {
                if prefix > 32 {
                    return Err(ExcludeErrorKind::BadPrefix);
                }
                match read_dotted(s, from, slash) {
                    Some(ip) => Ok(cidr_block(ip, prefix)),
                    None => Err(ExcludeErrorKind::BadAddress),
                }
            },
            None => Err(ExcludeErrorKind::BadPrefix),
        }
    } else if hyphen < to {
        proof {
            assert(t.subrange(hyphen + 1 - from, n) =~= s@.subrange(hyphen + 1, to as int));
            assert(t.subrange(0, hyphen - from) =~= s@.subrange(from as int, hyphen as int));
        }
        match (read_dotted(s, from, hyphen), read_dotted(s, hyphen + 1, to)) {
            (Some(start), Some(end)) => {
                if start <= end {
                    Ok(Range { start, end })
                } else {
                    Err(ExcludeErrorKind::StartAfterEnd)
                }
            },
            _ => Err(ExcludeErrorKind::BadAddress),
        }
    } else {
        match read_dotted(s, from, to) {
            Some(ip) => Ok(Range { start: ip, end: ip }),
            None => Err(ExcludeErrorKind::BadAddress),
        }
    }
}

/// What has been read so far, followed by what is still to come.
pub open spec fn followed_by(
    done: Seq<Range<Ipv4>>,
    rest: Result<Seq<Range<Ipv4>>, ExcludeError>,
) -> Result<Seq<Range<Ipv4>>, ExcludeError> {
    match rest {
        Ok(more) => Ok(done + more),
        Err(e) => Err(e),
    }
}

/// Reads an exclude file: the ranges of its lines in order, or the first
/// line at fault.
pub fn parse(input: &str) -> (r: Result<Ipv4Ranges, ExcludeError>)
    ensures
        match r {
            Ok(ranges) => parse_spec(input.spec_bytes()) == Ok::<Seq<Range<Ipv4>>, ExcludeError>(
                ranges.ranges(),
            ),
            Err(e) => parse_spec(input.spec_bytes()) == Err::<Seq<Range<Ipv4>>, ExcludeError>(e),
        },
{
    let s = input.as_bytes();
    let len = s.len();
    let mut ranges: Vec<Range<Ipv4>> = Vec::new();
    let mut from: usize = 0;
    let mut line: usize = 0;
    let mut done = false;
    while !done
        invariant
            s@ == input.spec_bytes(),
            len == s@.len(),
            from <= len,
            line <= from,
            !done ==> followed_by(ranges@, parse_from(s@, from as int, line as nat)) == parse_spec(
                s@,
            ),
            done ==> Ok::<Seq<Range<Ipv4>>, ExcludeError>(ranges@) == parse_spec(s@),
        decreases
                if done {
                    0
                } else {
                    len - from + 1
                },
    {
        let ghost before = ranges@;
        let end = find_from(s, from, len, 0x0a);
        let hash = find_from(s, from, end, 0x23);
        let (lo, hi) = trim(s, from, hash);
        if lo < hi {
            match read_entry(s, lo, hi) {
                Err(kind) => {
                    return Err(ExcludeError { line, kind });
                },
                Ok(range) => {
                    ranges.push(range);
                },
            }
        }
        proof {
            let rest = if end < len {
                parse_from(s@, end + 1, (line + 1) as nat)
            } else {
                Ok(Seq::empty())
            };
            if rest.is_ok() {
                if lo < hi {
                    assert(before + (seq![ranges@.last()] + rest.unwrap()) =~= ranges@
                        + rest.unwrap());
                }
            }
        }
        if end < len {
            from = end + 1;
            line += 1;
        } else {
            done = true;
            assert(ranges@ + Seq::<Range<Ipv4>>::empty() =~= ranges@);
        }
    }
    Ok(Ranges::from_vec(ranges))
}

proof fn lemma_entry_ok(t: Seq<u8>)
    ensures
        entry(t).is_ok() ==> entry(t).unwrap().start <= entry(t).unwrap().end,
{
    if entry(t).is_ok() {
        let n = t.len() as int;
        let slash = seg_end(t, 0, n, 0x2f);
        if slash < n {
            let prefix = dec_u8(t.subrange(slash + 1, n)).unwrap();
            let ip = dotted(t.subrange(0, slash)).unwrap();
            let mask = host_mask(prefix);
            let start = ip & !mask;
            let end = ip | mask;
            assert(start <= end) by (bit_vector)
                requires
                    start == ip & !mask,
                    end == ip | mask,
            ;
        }
    }
}

proof fn lemma_parse_from_ok(s: Seq<u8>, from: int, line: nat)
    ensures
        parse_from(s, from, line).is_ok() ==> ips_ok(parse_from(s, from, line).unwrap()),
    decreases s.len() - from,
{
    if from <= s.len() && parse_from(s, from, line).is_ok() {
        let end = seg_end(s, from, s.len() as int, 0x0a);
        let found = parse_from(s, from, line).unwrap();
        if from <= end < s.len() {
            lemma_parse_from_ok(s, end + 1, line + 1);
        }
        match line_entry(s, from, end) {
            Some(Ok(range)) => {
                let hash = seg_end(s, from, end, 0x23);
                let lo = trimmed_start(s, from, hash);
                let hi = trimmed_end(s, lo, hash);
                lemma_entry_ok(s.subrange(lo, hi));
                let rest = if from <= end < s.len() {
                    parse_from(s, end + 1, line + 1).unwrap()
                } else {
                    Seq::empty()
                };
                assert(found == seq![range] + rest);
                assert forall|j: int| 0 <= j < found.len() implies (#[trigger] found[j]).start
                    <= found[j].end by {
                    if j > 0 {
                        assert(found[j] == rest[j - 1]);
                    }
                }
            },
            _ => {},
        }
    }
}

/// No range of an exclude file runs backwards.
pub proof fn lemma_parsed_ranges_ok(s: Seq<u8>)
    ensures
        parse_spec(s).is_ok() ==> ips_ok(parse_spec(s).unwrap()),
{
    lemma_parse_from_ok(s, 0, 0);
}

} // verus!
