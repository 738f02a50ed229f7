//! Ethernet addresses.

use crate::net::text::{find_from, hex_u8, read_hex_u8, seg_end};
use vstd::prelude::*;
use vstd::string::StringSliceAdditionalSpecFns;

verus! {

/// An Ethernet address.
#[derive(Clone, Copy, Debug, PartialEq, Eq, Hash)]
pub struct MacAddr {
    octets: [u8; 6],
}

/// Why a text is no Ethernet address.
#[derive(Clone, Copy, Debug, PartialEq, Eq, Structural)]
pub enum MacError {
    /// It has not 17 bytes, but this many.
    Length(usize),
    /// It has more than six parts.
    SegmentCount,
    /// One of its first six parts is no hexadecimal number up to `ff`.
    Digit,
}

/// What has been read so far, followed by what is still to come.
pub open spec fn octets_then(done: Seq<u8>, rest: Result<Seq<u8>, MacError>) -> Result<
    Seq<u8>,
    MacError,
> {
    match rest {
        Ok(more) => Ok(done + more),
        Err(e) => Err(e),
    }
}

/// The octets from the `i`-th on, read from the parts of `s` from position
/// `from` on: one octet for each part, parts being set apart by `:`, and
/// zeros for the octets that have no part.
pub open spec fn octets_from(s: Seq<u8>, from: int, i: nat) -> Result<Seq<u8>, MacError>
    decreases s.len() - from,
{
    if i >= 6 {
        Err(MacError::SegmentCount)
    } else {
        let end = seg_end(s, from, s.len() as int, 0x3a);
        let rest = if from <= end < s.len() {
            octets_from(s, end + 1, i + 1)
        } else {
            Ok(Seq::new((5 - i) as nat, |k: int| 0u8))
        };
        match hex_u8(s.subrange(from, end)) {
            None => Err(MacError::Digit),
            Some(v) => octets_then(seq![v], rest),
        }
    }
}

/// The address that a text of 17 bytes spells, such as
/// `00:1a:2b:3c:4d:5e`.
pub open spec fn mac_of(s: Seq<u8>) -> Result<Seq<u8>, MacError> {
    if s.len() != 17 {
        Err(MacError::Length(s.len() as usize))
    } else {
        octets_from(s, 0, 0)
    }
}

impl MacAddr {
    /// The six octets.
    pub closed spec fn view(&self) -> Seq<u8> {
        self.octets@
    }

    /// The address of all zeros.
    pub fn unspecified() -> (m: Self)
        ensures
            m@ == Seq::new(6, |k: int| 0u8),
    {
        let m = MacAddr { octets: [0u8; 6] };
        assert(m@ =~= Seq::new(6, |k: int| 0u8));
        m
    }

    pub fn from_octets(octets: [u8; 6]) -> (m: Self)
        ensures
            m@ == octets@,
    {
        MacAddr { octets }
    }

    pub fn as_octets(&self) -> (octets: &[u8; 6])
        ensures
            octets@ == self@,
    {
        &self.octets
    }

    /// Reads an address from text.
    pub fn from_str(s: &str) -> (r: Result<MacAddr, MacError>)
        ensures
            match r {
                Ok(mac) => mac_of(s.spec_bytes()) == Ok::<Seq<u8>, MacError>(mac@),
                Err(e) => mac_of(s.spec_bytes()) == Err::<Seq<u8>, MacError>(e),
            },
    {
        MacAddr::from_bytes(s.as_bytes())
    }

    /// Reads an address from the bytes of a text.
    pub fn from_bytes(b: &[u8]) -> (r: Result<MacAddr, MacError>)
        ensures
            match r {
                Ok(mac) => mac_of(b@) == Ok::<Seq<u8>, MacError>(mac@),
                Err(e) => mac_of(b@) == Err::<Seq<u8>, MacError>(e),
            },
    {
        let len = b.len();
        if len != 17 {
            return Err(MacError::Length(len));
        }
        let mut mac: [u8; 6] = [0u8; 6];
        let mut from: usize = 0;
        let mut i: usize = 0;
        let mut done = false;
        while !done
            invariant
                len == b@.len(),
                from <= len,
                i <= 6,
                !done ==> forall|k: int| i <= k < 6 ==> mac@[k] == 0,
                !done ==> octets_then(mac@.take(i as int), octets_from(b@, from as int, i as nat))
                    == mac_of(b@),
                done ==> Ok::<Seq<u8>, MacError>(mac@) == mac_of(b@),
            decreases
                    if done {
                        0
                    } else {
                        len - from + 1
                    },
        {
            if i >= 6 {
                return Err(MacError::SegmentCount);
            }
            let end = find_from(b, from, len, 0x3a);
            let Some(v) = read_hex_u8(b, from, end) else {
                return Err(MacError::Digit);
            };
            let ghost before = mac@.take(i as int);
            mac[i] = v;
            assert(mac@.take(i + 1) =~= before + seq![v]);
            if end < len {
                proof {
                    let rest = octets_from(b@, end + 1, (i + 1) as nat);
                    if rest.is_ok() {
                        assert(before + (seq![v] + rest.unwrap()) =~= (before + seq![v])
                            + rest.unwrap());
                    }
                }
                from = end + 1;
                i += 1;
            } else {
                proof {
                    let zeros = Seq::new((5 - i) as nat, |k: int| 0u8);
                    assert(before + (seq![v] + zeros) =~= mac@);
                }
                done = true;
            }
        }
        Ok(MacAddr { octets: mac })
    }
}

impl Default for MacAddr {
    fn default() -> (m: Self)
        ensures
            m@ == Seq::new(6, |k: int| 0u8),
    {
        MacAddr::unspecified()
    }
}

} // verus!
