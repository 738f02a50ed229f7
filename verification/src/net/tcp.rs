//! TCP over IPv4 over Ethernet: the frame template, the flag set, the SYN
//! cookie and the Internet checksum in the partial forms the sender uses.

use vstd::arithmetic::div_mod::{
    lemma_add_mod_noop, lemma_mod_mod, lemma_mod_multiples_vanish, lemma_mul_mod_noop,
};
use vstd::prelude::*;

verus! {

/// An IPv4 address as its 32 bits, first octet highest: `10.0.0.1` is
/// `0x0A00_0001`.
pub type Ipv4 = u32;

/// A 62-byte SYN frame with every variable field zeroed: Ethernet, an IPv4
/// header without options (TTL 64, don't-fragment, protocol TCP), and a TCP
/// header of 28 bytes that advertises a window of 32768, MSS 1340 and
/// SACK-permitted.
pub const TCP_PACKET: [u8; 62] = [
    0x00, 0x00, 0x00, 0x00, 0x00, 0x00,
    0x00, 0x00, 0x00, 0x00, 0x00, 0x00,
    0x08, 0x00,
    0x45, 0x00, 0x00, 0x30, 0x00, 0x01, 0x40, 0x00, 0x40, 0x06, 0x00, 0x00,
    0x00, 0x00, 0x00, 0x00,
    0x00, 0x00, 0x00, 0x00,
    0x00, 0x00, 0x00, 0x00,
    0x00, 0x00, 0x00, 0x00,
    0x00, 0x00, 0x00, 0x00,
    0x70, 0x00, 0x80, 0x00, 0x00, 0x00, 0x00, 0x00,
    0x02, 0x04, 0x05, 0x3C, 0x01, 0x01, 0x04, 0x02,
];

/// The four octets of an address, first octet first.
pub open spec fn octets_of(ip: Ipv4) -> Seq<u8> {
    seq![
        (ip / 0x100_0000) as u8,
        (ip / 0x1_0000 % 0x100) as u8,
        (ip / 0x100 % 0x100) as u8,
        (ip % 0x100) as u8,
    ]
}

/// The address that four octets spell.
pub open spec fn ipv4_of(o: Seq<u8>) -> int
    recommends
        o.len() == 4,
{
    o[0] * 0x100_0000 + o[1] * 0x1_0000 + o[2] * 0x100 + o[3]
}

/// The four octets of `ip`, first octet first.
pub fn octets(ip: Ipv4) -> (o: [u8; 4])
    ensures
        o@ == octets_of(ip),
        ipv4_of(o@) == ip,
{
    let o: [u8; 4] = [
        (ip / 0x100_0000) as u8,
        (ip / 0x1_0000 % 0x100) as u8,
        (ip / 0x100 % 0x100) as u8,
        (ip % 0x100) as u8,
    ];
    assert(o@ =~= octets_of(ip));
    o
}

/// The address that four octets spell, first octet first.
pub fn from_octets(o: &[u8; 4]) -> (ip: Ipv4)
    ensures
        ip == ipv4_of(o@),
        octets_of(ip) == o@,
{
    let ip: u32 = (o[0] as u32) * 0x100_0000 + (o[1] as u32) * 0x1_0000 + (o[2] as u32) * 0x100
        + (o[3] as u32);
    proof {
        let (a, b, c, d) = (o[0] as int, o[1] as int, o[2] as int, o[3] as int);
        let n = ip as int;
        assert(n == a * 0x100_0000 + b * 0x1_0000 + c * 0x100 + d);
        assert(n / 0x100_0000 == a);
        assert(n / 0x1_0000 == a * 0x100 + b);
        assert(n / 0x100 == a * 0x1_0000 + b * 0x100 + c);
        assert(octets_of(ip) =~= o@);
    }
    ip
}

/// Octets and address bits determine each other.
pub proof fn octets_round_trip(ip: Ipv4)
    ensures
        octets_of(ip).len() == 4,
        ipv4_of(octets_of(ip)) == ip,
{
}

/// A set of TCP header flags, one bit each, as they stand in byte 13 of the
/// TCP header.
#[derive(Clone, Copy, Debug, PartialEq, Eq, Structural)]
pub struct TcpFlags {
    pub bits: u8,
}

pub const FIN_BIT: u8 = 0b0000_0001;
pub const SYN_BIT: u8 = 0b0000_0010;
pub const RST_BIT: u8 = 0b0000_0100;
pub const PSH_BIT: u8 = 0b0000_1000;
pub const ACK_BIT: u8 = 0b0001_0000;
pub const URG_BIT: u8 = 0b0010_0000;
pub const ECE_BIT: u8 = 0b0100_0000;
pub const CWR_BIT: u8 = 0b1000_0000;

impl TcpFlags {
    /// The flag byte.
    pub open spec fn view(&self) -> u8 {
        self.bits
    }

    /// Some flag of `other` is set here.
    pub open spec fn spec_intersects(&self, other: TcpFlags) -> bool {
        self@ & other@ != 0
    }

    /// Every flag of `other` is set here.
    pub open spec fn spec_contains(&self, other: TcpFlags) -> bool {
        self@ & other@ == other@
    }

    /// The set with exactly the bits of `bits`, unknown bits kept.
    pub fn from_bits_retain(bits: u8) -> (f: TcpFlags)
        ensures
            f@ == bits,
    {
        TcpFlags { bits }
    }

    /// The flag byte.
    pub fn bits(&self) -> (b: u8)
        ensures
            b == self@,
    {
        self.bits
    }

    /// The empty set.
    pub fn empty() -> (f: TcpFlags)
        ensures
            f@ == 0,
    {
        TcpFlags { bits: 0 }
    }

    pub fn fin() -> (f: TcpFlags)
        ensures
            f@ == FIN_BIT,
    {
        TcpFlags { bits: FIN_BIT }
    }

    pub fn syn() -> (f: TcpFlags)
        ensures
            f@ == SYN_BIT,
    {
        TcpFlags { bits: SYN_BIT }
    }

    pub fn rst() -> (f: TcpFlags)
        ensures
            f@ == RST_BIT,
    {
        TcpFlags { bits: RST_BIT }
    }

    pub fn psh() -> (f: TcpFlags)
        ensures
            f@ == PSH_BIT,
    {
        TcpFlags { bits: PSH_BIT }
    }

    pub fn ack() -> (f: TcpFlags)
        ensures
            f@ == ACK_BIT,
    {
        TcpFlags { bits: ACK_BIT }
    }

    pub fn urg() -> (f: TcpFlags)
        ensures
            f@ == URG_BIT,
    {
        TcpFlags { bits: URG_BIT }
    }

    pub fn ece() -> (f: TcpFlags)
        ensures
            f@ == ECE_BIT,
    {
        TcpFlags { bits: ECE_BIT }
    }

    pub fn cwr() -> (f: TcpFlags)
        ensures
            f@ == CWR_BIT,
    {
        TcpFlags { bits: CWR_BIT }
    }

    /// The flags set in either.
    pub fn union(self, other: TcpFlags) -> (f: TcpFlags)
        ensures
            f@ == self@ | other@,
    {
        TcpFlags { bits: self.bits | other.bits }
    }

    /// Whether some flag of `other` is set here.
    pub fn intersects(&self, other: TcpFlags) -> (b: bool)
        ensures
            b == self.spec_intersects(other),
    {
        self.bits & other.bits != 0
    }

    /// Whether every flag of `other` is set here.
    pub fn contains(&self, other: TcpFlags) -> (b: bool)
        ensures
            b == self.spec_contains(other),
    {
        self.bits & other.bits == other.bits
    }
}

/// Multiplier of the SYN cookie where a machine word has 64 bits.
pub const COOKIE_K64: u64 = 0xf1357aea2e62a9c5;

/// Multiplier of the SYN cookie where a machine word has 32 bits.
pub const COOKIE_K32: u32 = 0x93d765dd;

/// The multiplier this machine uses.
pub open spec fn cookie_k() -> int {
    if usize::BITS == 64 {
        COOKIE_K64 as int
    } else {
        COOKIE_K32 as int
    }
}

/// The word that enters the cookie for an address: its four octets as a
/// little-endian host reads them from memory, first octet lowest.
pub open spec fn cookie_word(ip: Ipv4) -> int {
    let o = octets_of(ip);
    o[0] + o[1] * 0x100 + o[2] * 0x1_0000 + o[3] * 0x100_0000
}

/// The SYN cookie of a peer: `((word * K + port) * K + seed) * K` modulo
/// 2^32.
pub open spec fn cookie_value(ip: Ipv4, port: u16, seed: u64) -> int {
    (((cookie_word(ip) * cookie_k() + port) * cookie_k() + seed) * cookie_k()) % 0x1_0000_0000
}

proof fn lemma_step_mul(a: int, b: int, k: int, w: int)
    requires
        w == 0x1_0000_0000 || w == 0x1_0000_0000_0000_0000,
        a % 0x1_0000_0000 == b % 0x1_0000_0000,
    ensures
        ((a * k) % w) % 0x1_0000_0000 == (b * k) % 0x1_0000_0000,
{
    let m = 0x1_0000_0000int;
    if w == m {
        lemma_mod_mod(a * k, m, 1);
    } else {
        assert(w == m * m) by (nonlinear_arith)
            requires
                w == 0x1_0000_0000_0000_0000,
                m == 0x1_0000_0000,
        ;
        lemma_mod_mod(a * k, m, m);
    }
    lemma_mul_mod_noop(a, k, m);
    lemma_mul_mod_noop(b, k, m);
}

proof fn lemma_step_add(a: int, b: int, k: int, w: int)
    requires
        w == 0x1_0000_0000 || w == 0x1_0000_0000_0000_0000,
        a % 0x1_0000_0000 == b % 0x1_0000_0000,
    ensures
        ((a + k) % w) % 0x1_0000_0000 == (b + k) % 0x1_0000_0000,
{
    let m = 0x1_0000_0000int;
    if w == m {
        lemma_mod_mod(a + k, m, 1);
    } else {
        assert(w == m * m) by (nonlinear_arith)
            requires
                w == 0x1_0000_0000_0000_0000,
                m == 0x1_0000_0000,
        ;
        lemma_mod_mod(a + k, m, m);
    }
    lemma_add_mod_noop(a, k, m);
    lemma_add_mod_noop(b, k, m);
}

proof fn lemma_cookie_chain(word: int, port: int, seed: int, k: int, w: int, t: Seq<int>)
    requires
        w == 0x1_0000_0000 || w == 0x1_0000_0000_0000_0000,
        t.len() == 5,
        t[0] == (word * k) % w,
        t[1] == (t[0] + port) % w,
        t[2] == (t[1] * k) % w,
        t[3] == (t[2] + seed) % w,
        t[4] == (t[3] * k) % w,
    ensures
        t[4] % 0x1_0000_0000 == (((word * k + port) * k + seed) * k) % 0x1_0000_0000,
{
    let e1 = word * k;
    let e2 = e1 + port;
    let e3 = e2 * k;
    let e4 = e3 + seed;
    lemma_step_mul(word, word, k, w);
    lemma_step_add(t[0], e1, port, w);
    lemma_step_mul(t[1], e2, k, w);
    lemma_step_add(t[2], e3, seed, w);
    lemma_step_mul(t[3], e4, k, w);
}

proof fn lemma_wrapping_mul_u64(x: u64, k: u64)
    ensures
        x.wrapping_mul(k) == (x as int * k as int) % 0x1_0000_0000_0000_0000,
{
    assert(x as nat * k as nat == x as int * k as int) by (nonlinear_arith);
}

proof fn lemma_wrapping_mul_u32(x: u32, k: u32)
    ensures
        x.wrapping_mul(k) == (x as int * k as int) % 0x1_0000_0000,
{
    assert(x as nat * k as nat == x as int * k as int) by (nonlinear_arith);
}

fn cookie_wide(word: u32, port: u16, seed: u64) -> (c: u32)
    ensures
        c == (((word * COOKIE_K64 + port) * COOKIE_K64 + seed) * COOKIE_K64) % 0x1_0000_0000,
{
    let k: u64 = COOKIE_K64;
    let t1: u64 = (word as u64).wrapping_mul(k);
    let t2: u64 = t1.wrapping_add(port as u64);
    let t3: u64 = t2.wrapping_mul(k);
    let t4: u64 = t3.wrapping_add(seed);
    let t5: u64 = t4.wrapping_mul(k);
    let low: u64 = t5 & 0xffff_ffff;
    proof {
        lemma_wrapping_mul_u64(word as u64, k);
        lemma_wrapping_mul_u64(t2, k);
        lemma_wrapping_mul_u64(t4, k);
        lemma_cookie_chain(
            word as int,
            port as int,
            seed as int,
            k as int,
            0x1_0000_0000_0000_0000,
            seq![t1 as int, t2 as int, t3 as int, t4 as int, t5 as int],
        );
        assert(low == t5 % 0x1_0000_0000) by (bit_vector)
            requires
                low == t5 & 0xffff_ffff,
        ;
    }
    low as u32
}

fn cookie_narrow(word: u32, port: u16, seed: u64) -> (c: u32)
    ensures
        c == (((word * COOKIE_K32 + port) * COOKIE_K32 + seed) * COOKIE_K32) % 0x1_0000_0000,
{
    let k: u32 = COOKIE_K32;
    let s: u64 = seed & 0xffff_ffff;
    let t1: u32 = word.wrapping_mul(k);
    let t2: u32 = t1.wrapping_add(port as u32);
    let t3: u32 = t2.wrapping_mul(k);
    let t4: u32 = t3.wrapping_add(s as u32);
    let t5: u32 = t4.wrapping_mul(k);
    proof {
        assert(s == seed % 0x1_0000_0000) by (bit_vector)
            requires
                s == seed & 0xffff_ffff,
        ;
        lemma_wrapping_mul_u32(word, k);
        lemma_wrapping_mul_u32(t2, k);
        lemma_wrapping_mul_u32(t4, k);
        lemma_add_mod_noop(t3 as int, seed as int, 0x1_0000_0000);
        lemma_add_mod_noop(t3 as int, s as int, 0x1_0000_0000);
        assert(t4 == (t3 + seed) % 0x1_0000_0000);
        lemma_cookie_chain(
            word as int,
            port as int,
            seed as int,
            k as int,
            0x1_0000_0000,
            seq![t1 as int, t2 as int, t3 as int, t4 as int, t5 as int],
        );
    }
    t5
}

/// The SYN cookie of the peer `ip:port` under `seed`. It goes out as the
/// sequence number of the SYN; the peer's SYN-ACK acknowledges it plus one.
pub fn cookie(ip: Ipv4, port: u16, seed: u64) -> (c: u32)
    ensures
        c == cookie_value(ip, port, seed),
{
    let o = octets(ip);
    let word: u32 = (o[0] as u32) + (o[1] as u32) * 0x100 + (o[2] as u32) * 0x1_0000 + (
    o[3] as u32) * 0x100_0000;
    assert(word == cookie_word(ip));
    if usize::BITS == 64 {
        cookie_wide(word, port, seed)
    } else {
        cookie_narrow(word, port, seed)
    }
}

/// The inverse of the 64-bit multiplier modulo 2^32.
pub const COOKIE_K64_INVERSE: u32 = 0x5daa_ed0d;

/// The inverse of the 32-bit multiplier modulo 2^32.
pub const COOKIE_K32_INVERSE: u32 = 0x7aae_1a75;

proof fn lemma_cancel_mul(a: int, b: int, k: int, inverse: int, m: int)
    requires
        m > 1,
        (k * inverse) % m == 1,
        (a * k) % m == (b * k) % m,
    ensures
        a % m == b % m,
{
    lemma_mul_mod_noop(a * k, inverse, m);
    lemma_mul_mod_noop(b * k, inverse, m);
    assert(a * k * inverse == a * (k * inverse) && b * k * inverse == b * (k * inverse))
        by (nonlinear_arith);
    lemma_mul_mod_noop(a, k * inverse, m);
    lemma_mul_mod_noop(b, k * inverse, m);
    assert(1int % m == 1) by {
        vstd::arithmetic::div_mod::lemma_small_mod(1, m as nat);
    }
    lemma_mod_mod(a, m, 1);
    lemma_mod_mod(b, m, 1);
    assert(((a % m) * 1) % m == a % m);
    assert(((b % m) * 1) % m == b % m);
}

proof fn lemma_cancel_add(a: int, b: int, c: int, m: int)
    requires
        m > 0,
        (a + c) % m == (b + c) % m,
    ensures
        a % m == b % m,
{
    vstd::arithmetic::div_mod::lemma_sub_mod_noop(a + c, c, m);
    vstd::arithmetic::div_mod::lemma_sub_mod_noop(b + c, c, m);
}

/// The inverse modulo 2^32 of the multiplier this machine uses.
pub open spec fn cookie_k_inverse() -> int {
    if usize::BITS == 64 {
        COOKIE_K64_INVERSE as int
    } else {
        COOKIE_K32_INVERSE as int
    }
}

proof fn lemma_multiplier_inverse()
    ensures
        (cookie_k() * cookie_k_inverse()) % 0x1_0000_0000 == 1,
{
    if usize::BITS == 64 {
        assert((0xf135_7aea_2e62_a9c5int * 0x5daa_ed0dint) % 0x1_0000_0000 == 1)
            by (nonlinear_arith);
        assert((cookie_k() * (COOKIE_K64_INVERSE as int)) % 0x1_0000_0000 == 1);
    } else {
        assert((0x93d7_65ddint * 0x7aae_1a75int) % 0x1_0000_0000 == 1) by (nonlinear_arith);
        assert((cookie_k() * (COOKIE_K32_INVERSE as int)) % 0x1_0000_0000 == 1);
    }
}

proof fn lemma_words_agree(w1: int, w2: int, p: int, s: int, k: int, inverse: int, m: int)
    requires
        m > 1,
        (k * inverse) % m == 1,
        (((w1 * k + p) * k + s) * k) % m == (((w2 * k + p) * k + s) * k) % m,
    ensures
        w1 % m == w2 % m,
{
    let y1 = w1 * k + p;
    let y2 = w2 * k + p;
    lemma_cancel_mul(y1 * k + s, y2 * k + s, k, inverse, m);
    lemma_cancel_add(y1 * k, y2 * k, s, m);
    lemma_cancel_mul(y1, y2, k, inverse, m);
    lemma_cancel_add(w1 * k, w2 * k, p, m);
    lemma_cancel_mul(w1, w2, k, inverse, m);
}

proof fn lemma_ports_agree(w: int, first: int, second: int, s: int, k: int, inverse: int, m: int)
    requires
        m > 1,
        (k * inverse) % m == 1,
        (((w * k + first) * k + s) * k) % m == (((w * k + second) * k + s) * k) % m,
    ensures
        first % m == second % m,
{
    let y1 = w * k + first;
    let y2 = w * k + second;
    lemma_cancel_mul(y1 * k + s, y2 * k + s, k, inverse, m);
    lemma_cancel_add(y1 * k, y2 * k, s, m);
    lemma_cancel_mul(y1, y2, k, inverse, m);
    assert(y1 == first + w * k && y2 == second + w * k);
    lemma_cancel_add(first, second, w * k, m);
}

proof fn lemma_seeds_agree(y: int, s1: int, s2: int, k: int, inverse: int, m: int)
    requires
        m > 1,
        (k * inverse) % m == 1,
    ensures
        ((y * k + s1) * k) % m == ((y * k + s2) * k) % m <==> s1 % m == s2 % m,
{
    let x1 = y * k + s1;
    let x2 = y * k + s2;
    if (x1 * k) % m == (x2 * k) % m {
        lemma_cancel_mul(x1, x2, k, inverse, m);
        assert(x1 == s1 + y * k && x2 == s2 + y * k);
        lemma_cancel_add(s1, s2, y * k, m);
    }
    if s1 % m == s2 % m {
        lemma_add_mod_noop(y * k, s1, m);
        lemma_add_mod_noop(y * k, s2, m);
        lemma_mul_mod_noop(x1, k, m);
        lemma_mul_mod_noop(x2, k, m);
    }
}

proof fn lemma_digits_agree(a: Seq<u8>, b: Seq<u8>)
    requires
        a.len() == 4,
        b.len() == 4,
        a[0] + a[1] * 0x100 + a[2] * 0x1_0000 + a[3] * 0x100_0000 == b[0] + b[1] * 0x100 + b[2]
            * 0x1_0000 + b[3] * 0x100_0000,
    ensures
        a == b,
{
    let (a0, a1, a2, a3) = (a[0], a[1], a[2], a[3]);
    let (b0, b1, b2, b3) = (b[0], b[1], b[2], b[3]);
    assert(a0 == b0 && a1 == b1 && a2 == b2 && a3 == b3) by (bit_vector)
        requires
            a0 + a1 * 0x100 + a2 * 0x1_0000 + a3 * 0x100_0000 == b0 + b1 * 0x100 + b2 * 0x1_0000
                + b3 * 0x100_0000,
    ;
    assert(a =~= b);
}

proof fn lemma_word_tells_address(ip1: Ipv4, ip2: Ipv4)
    requires
        cookie_word(ip1) == cookie_word(ip2),
    ensures
        ip1 == ip2,
{
    let a = octets_of(ip1);
    let b = octets_of(ip2);
    octets_round_trip(ip1);
    octets_round_trip(ip2);
    lemma_digits_agree(a, b);
}

/// Two addresses never share a cookie on the same port under the same seed.
pub proof fn lemma_cookie_tells_addresses(ip1: Ipv4, ip2: Ipv4, port: u16, seed: u64)
    requires
        ip1 != ip2,
    ensures
        cookie_value(ip1, port, seed) != cookie_value(ip2, port, seed),
{
    lemma_multiplier_inverse();
    if cookie_value(ip1, port, seed) == cookie_value(ip2, port, seed) {
        lemma_words_agree(
            cookie_word(ip1),
            cookie_word(ip2),
            port as int,
            seed as int,
            cookie_k(),
            cookie_k_inverse(),
            0x1_0000_0000,
        );
        lemma_word_tells_address(ip1, ip2);
    }
}

/// Two ports of one address never share a cookie under the same seed.
pub proof fn lemma_cookie_tells_ports(ip: Ipv4, port1: u16, port2: u16, seed: u64)
    requires
        port1 != port2,
    ensures
        cookie_value(ip, port1, seed) != cookie_value(ip, port2, seed),
{
    lemma_multiplier_inverse();
    if cookie_value(ip, port1, seed) == cookie_value(ip, port2, seed) {
        lemma_ports_agree(
            cookie_word(ip),
            port1 as int,
            port2 as int,
            seed as int,
            cookie_k(),
            cookie_k_inverse(),
            0x1_0000_0000,
        );
    }
}

/// Two seeds give a peer the same cookie exactly if they agree in their low
/// 32 bits.
pub proof fn lemma_cookie_tells_seeds(ip: Ipv4, port: u16, seed1: u64, seed2: u64)
    ensures
        cookie_value(ip, port, seed1) == cookie_value(ip, port, seed2) <==> seed1 % 0x1_0000_0000
            == seed2 % 0x1_0000_0000,
{
    lemma_multiplier_inverse();
    lemma_seeds_agree(
        cookie_word(ip) * cookie_k() + port,
        seed1 as int,
        seed2 as int,
        cookie_k(),
        cookie_k_inverse(),
        0x1_0000_0000,
    );
}

/// A 16-bit word from its two bytes, high byte first.
pub open spec fn be16(hi: u8, lo: u8) -> int {
    hi * 0x100 + lo
}

/// The sum of the two 16-bit words of an address.
pub open spec fn ipv4_sum_of(o: Seq<u8>) -> int
    recommends
        o.len() == 4,
{
    be16(o[0], o[1]) + be16(o[2], o[3])
}

/// The sum of the first `n` 16-bit words of `data`.
pub open spec fn pairs_sum(data: Seq<u8>, n: int) -> int
    recommends
        0 <= 2 * n <= data.len(),
    decreases n,
{
    if n <= 0 {
        0
    } else {
        pairs_sum(data, n - 1) + be16(data[2 * n - 2], data[2 * n - 1])
    }
}

/// The sum of the 16-bit words of `data`, high byte first, an odd last byte
/// taken as the high byte of a word whose low byte is zero.
pub open spec fn words_sum(data: Seq<u8>) -> int {
    pairs_sum(data, data.len() as int / 2) + if data.len() % 2 == 1 {
        data.last() * 0x100
    } else {
        0
    }
}

/// A sum of 16-bit words with its carries folded back in: the 16-bit
/// one's-complement sum of those words. Zero only for a sum of zero; a
/// non-zero multiple of `0xFFFF` folds to `0xFFFF`.
pub open spec fn ones_fold(sum: int) -> int {
    if sum <= 0 {
        0
    } else {
        (sum - 1) % 0xFFFF + 1
    }
}

/// The sum of the two 16-bit words of an address given by its octets.
pub fn ipv4_sum(ip: &[u8; 4]) -> (s: u32)
    ensures
        s == ipv4_sum_of(ip@),
        s <= 0x1_FFFE,
{
    (ip[0] as u32) * 0x100 + (ip[1] as u32) + (ip[2] as u32) * 0x100 + (ip[3] as u32)
}

/// Folds a 32-bit sum of 16-bit words to 16 bits, carries added back in.
pub fn finalize_partial(sum: u32) -> (r: u16)
    ensures
        r == ones_fold(sum as int),
{
    let hi: u32 = sum >> 16;
    let lo: u32 = sum & 0xffff;
    assert(hi == sum / 0x1_0000 && lo == sum % 0x1_0000) by (bit_vector)
        requires
            hi == sum >> 16,
            lo == sum & 0xffff,
    ;
    let once: u32 = hi + lo;
    let carry: u32 = once >> 16;
    assert(carry == once / 0x1_0000) by (bit_vector)
        requires
            carry == once >> 16,
    ;
    let twice: u32 = once + carry;
    let low: u32 = twice & 0xffff;
    proof {
        assert(low == twice % 0x1_0000) by (bit_vector)
            requires
                low == twice & 0xffff,
        ;
        lemma_fold_digits(sum as int);
    }
    low as u16
}

proof fn lemma_fold_digits(sum: int)
    requires
        0 <= sum <= u32::MAX,
    ensures
        ({
            let once = sum / 0x1_0000 + sum % 0x1_0000;
            (once + once / 0x1_0000) % 0x1_0000 == ones_fold(sum)
        }),
{
    let q = sum / 0x1_0000;
    let once = q + sum % 0x1_0000;
    assert(sum == 0xFFFF * q + once);
    if sum > 0 {
        lemma_mod_multiples_vanish(q, once - 1, 0xFFFF);
        assert((sum - 1) % 0xFFFF == (once - 1) % 0xFFFF);
        if once > 0xFFFF {
            lemma_mod_multiples_vanish(1, once - 1 - 0xFFFF, 0xFFFF);
        }
    }
}

/// The one's complement of the folded sum: the checksum as it stands in a
/// header.
pub fn finalize_checksum(sum: u32) -> (r: u16)
    ensures
        r == 0xFFFF - ones_fold(sum as int),
{
    let folded = finalize_partial(sum);
    let r = !folded;
    assert(r == 0xFFFF - folded) by (bit_vector)
        requires
            r == !folded,
    ;
    r
}

/// The folded sum of the TCP pseudo header for a segment of `len` bytes
/// (TCP header and payload), given the sum of both addresses' words: what
/// the sender leaves in the checksum field for the NIC to complete.
pub fn raw_partial(ipv4_sum: u32, len: usize) -> (r: u16)
    requires
        ipv4_sum + 6 + len <= u32::MAX,
    ensures
        r == ones_fold(ipv4_sum + 6 + len),
{
    finalize_partial(ipv4_sum + 6 + len as u32)
}

/// The sum of the 16-bit words of a segment.
pub fn tcp_sum(data: &[u8]) -> (sum: u32)
    requires
        data@.len() <= 0xFFFF,
    ensures
        sum == words_sum(data@),
        sum <= 0xFFFF * 0x8000,
{
    let len = data.len();
    let mut sum: u32 = 0;
    let mut i: usize = 0;
    while i * 2 + 1 < len
        invariant
            2 * i <= len,
            len == data@.len(),
            len <= 0xFFFF,
            sum == pairs_sum(data@, i as int),
            sum <= 0xFFFF * i,
        decreases len - 2 * i,
    {
        sum += (data[i * 2] as u32) * 0x100 + (data[i * 2 + 1] as u32);
        i += 1;
    }
    assert(i == len / 2);
    if len % 2 != 0 {
        sum += (data[len - 1] as u32) * 0x100;
    }
    sum
}

/// The one's-complement sum of two 16-bit words: their sum, a carry out of
/// bit 15 added back at bit 0.
pub open spec fn ones_add(a: int, b: int) -> int {
    if a + b > 0xFFFF {
        a + b - 0xFFFF
    } else {
        a + b
    }
}

/// The one's-complement sum of a sequence of 16-bit words.
pub open spec fn ones_sum(words: Seq<int>) -> int
    decreases words.len(),
{
    if words.len() == 0 {
        0
    } else {
        ones_add(ones_sum(words.drop_last()), words.last())
    }
}

/// The 16-bit words of a segment, the last one padded with a zero byte where
/// the length is odd.
pub open spec fn data_words(data: Seq<u8>) -> Seq<int> {
    Seq::new(
        ((data.len() + 1) / 2) as nat,
        |i: int|
            be16(
                data[2 * i],
                if 2 * i + 1 < data.len() {
                    data[2 * i + 1]
                } else {
                    0
                },
            ),
    )
}

/// The 16-bit words that the TCP checksum covers: the pseudo header (source,
/// destination, protocol 6, TCP length) and then the segment.
pub open spec fn checksum_words(src: Seq<u8>, dst: Seq<u8>, data: Seq<u8>) -> Seq<int> {
    seq![
        be16(src[0], src[1]),
        be16(src[2], src[3]),
        be16(dst[0], dst[1]),
        be16(dst[2], dst[3]),
        6int,
        data.len() as int,
    ] + data_words(data)
}

/// The TCP checksum as RFC 793 defines it: the one's complement of the
/// one's-complement sum of all 16-bit words of pseudo header and segment.
pub open spec fn rfc793_tcp_checksum(src: Seq<u8>, dst: Seq<u8>, data: Seq<u8>) -> int {
    0xFFFF - ones_sum(checksum_words(src, dst, data))
}

/// The plain sum of a sequence of words.
pub open spec fn plain_sum(words: Seq<int>) -> int
    decreases words.len(),
{
    if words.len() == 0 {
        0
    } else {
        plain_sum(words.drop_last()) + words.last()
    }
}

/// Folding commutes with addition: the fold of a sum is the one's-complement
/// sum of the folds.
pub proof fn lemma_fold_add(a: int, b: int)
    requires
        0 <= a,
        0 <= b,
    ensures
        ones_fold(a + b) == ones_add(ones_fold(a), ones_fold(b)),
        0 <= ones_fold(a) <= 0xFFFF,
{
    if a > 0 && b > 0 {
        let x = (a - 1) % 0xFFFF;
        let y = (b - 1) % 0xFFFF;
        lemma_add_mod_noop(a - 1, b - 1, 0xFFFF);
        assert((a + b - 2) % 0xFFFF == (x + y) % 0xFFFF);
        // a + b - 1 = (a + b - 2) + 1
        lemma_add_mod_noop(a + b - 2, 1, 0xFFFF);
        lemma_add_mod_noop(x + y, 1, 0xFFFF);
        assert((a + b - 1) % 0xFFFF == (x + y + 1) % 0xFFFF);
        if x + y + 2 > 0xFFFF {
            lemma_mod_multiples_vanish(1, x + y + 1 - 0xFFFF, 0xFFFF);
        }
    }
}

proof fn lemma_ones_sum_is_fold(words: Seq<int>)
    requires
        forall|i: int| 0 <= i < words.len() ==> 0 <= #[trigger] words[i] <= 0xFFFF,
    ensures
        ones_sum(words) == ones_fold(plain_sum(words)),
        0 <= plain_sum(words),
    decreases words.len(),
{
    if words.len() > 0 {
        lemma_ones_sum_is_fold(words.drop_last());
        lemma_fold_add(plain_sum(words.drop_last()), words.last());
        lemma_fold_add(words.last(), 0);
    }
}

proof fn lemma_plain_sum_concat(a: Seq<int>, b: Seq<int>)
    ensures
        plain_sum(a + b) == plain_sum(a) + plain_sum(b),
    decreases b.len(),
{
    if b.len() == 0 {
        assert(a + b =~= a);
    } else {
        assert((a + b).drop_last() =~= a + b.drop_last());
        lemma_plain_sum_concat(a, b.drop_last());
    }
}

proof fn lemma_data_words_sum(data: Seq<u8>)
    ensures
        plain_sum(data_words(data)) == words_sum(data),
    decreases data.len(),
{
    let w = data_words(data);
    if data.len() == 0 {
    } else if data.len() == 1 {
        assert(w.drop_last() =~= Seq::<int>::empty());
        assert(plain_sum(w.drop_last()) == 0);
    } else if data.len() % 2 == 1 {
        let shorter = data.drop_last();
        lemma_data_words_sum(shorter);
        assert(w.drop_last() =~= data_words(shorter));
        lemma_pairs_sum_prefix(data, shorter, shorter.len() as int / 2);
    } else {
        let shorter = data.subrange(0, data.len() - 2);
        lemma_data_words_sum(shorter);
        assert(w.drop_last() =~= data_words(shorter));
        lemma_pairs_sum_prefix(data, shorter, shorter.len() as int / 2);
    }
}

proof fn lemma_pairs_sum_prefix(data: Seq<u8>, prefix: Seq<u8>, n: int)
    requires
        prefix.len() <= data.len(),
        forall|i: int| 0 <= i < prefix.len() ==> prefix[i] == data[i],
        0 <= 2 * n <= prefix.len(),
    ensures
        pairs_sum(data, n) == pairs_sum(prefix, n),
    decreases n,
{
    if n > 0 {
        lemma_pairs_sum_prefix(data, prefix, n - 1);
    }
}

/// The checksum the codec computes from its partial sums is the TCP checksum
/// of RFC 793.
pub proof fn lemma_checksum_is_rfc793(src: Seq<u8>, dst: Seq<u8>, data: Seq<u8>)
    requires
        src.len() == 4,
        dst.len() == 4,
        data.len() <= 0xFFFF,
    ensures
        0xFFFF - ones_fold(ipv4_sum_of(src) + ipv4_sum_of(dst) + 6 + data.len() + words_sum(data))
            == rfc793_tcp_checksum(src, dst, data),
{
    let head = seq![
        be16(src[0], src[1]),
        be16(src[2], src[3]),
        be16(dst[0], dst[1]),
        be16(dst[2], dst[3]),
        6int,
        data.len() as int,
    ];
    let tail = data_words(data);
    lemma_plain_sum_concat(head, tail);
    lemma_data_words_sum(data);
    assert(plain_sum(head) == ipv4_sum_of(src) + ipv4_sum_of(dst) + 6 + data.len()) by {
        reveal_with_fuel(plain_sum, 8);
        assert(head.drop_last().drop_last().drop_last().drop_last().drop_last().drop_last()
            =~= Seq::<int>::empty());
    }
    lemma_ones_sum_is_fold(head + tail);
}

/// The TCP checksum of the segment `data` sent from `source` to
/// `destination`, both given by their octets.
pub fn tcp(data: &[u8], source: &[u8; 4], destination: &[u8; 4]) -> (r: u16)
    requires
        data@.len() <= 0xFFFF,
    ensures
        r == rfc793_tcp_checksum(source@, destination@, data@),
{
    proof {
        lemma_checksum_is_rfc793(source@, destination@, data@);
    }
    finalize_checksum(
        ipv4_sum(source) + ipv4_sum(destination) + 6 + data.len() as u32 + tcp_sum(data),
    )
}

} // verus!
