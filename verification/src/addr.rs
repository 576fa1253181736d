//! Plain-value model of IP and UDP socket addresses.
//!
//! The proxy's logic only ever compares, sorts and deduplicates addresses; it
//! never inspects the operating system's own address structures. An IPv4
//! address is held as its 32-bit big-endian integer value, an IPv6 address as
//! its 128-bit value, and a socket address as an address paired with a port.
//! A total order over socket addresses makes snapshot construction
//! deterministic.

use vstd::prelude::*;

verus! {

/// An IP address as a plain integer value.
#[derive(Clone, Copy, Debug, PartialEq, Eq, Structural, Hash)]
pub enum IpAddress {
    /// An IPv4 address: the four octets as one big-endian 32-bit value.
    V4(u32),
    /// An IPv6 address: the sixteen octets as one big-endian 128-bit value.
    V6(u128),
}

/// A UDP socket address: an IP address and a port.
#[derive(Clone, Copy, Debug, PartialEq, Eq, Structural, Hash)]
pub struct SockAddr {
    pub ip: IpAddress,
    pub port: u16,
}

/// Strict order on IP addresses: all IPv4 addresses precede all IPv6
/// addresses; within a family, numeric order of the address value.
pub open spec fn ip_lt(a: IpAddress, b: IpAddress) -> bool {
    match (a, b) {
        (IpAddress::V4(x), IpAddress::V4(y)) => x < y,
        (IpAddress::V4(_), IpAddress::V6(_)) => true,
        (IpAddress::V6(_), IpAddress::V4(_)) => false,
        (IpAddress::V6(x), IpAddress::V6(y)) => x < y,
    }
}

/// Strict order on socket addresses: by IP address, then by port.
pub open spec fn addr_lt(a: SockAddr, b: SockAddr) -> bool {
    ip_lt(a.ip, b.ip) || (a.ip == b.ip && a.port < b.port)
}

/// `addr_lt` is a strict total order: irreflexive, transitive, and any two
/// distinct addresses are ordered one way or the other.
pub proof fn lemma_addr_lt_total_order(a: SockAddr, b: SockAddr, c: SockAddr)
    ensures
        !addr_lt(a, a),
        addr_lt(a, b) && addr_lt(b, c) ==> addr_lt(a, c),
        a != b ==> addr_lt(a, b) || addr_lt(b, a),
        !(addr_lt(a, b) && addr_lt(b, a)),
{
}

/// A decimal digit byte (`'0'` to `'9'`).
pub open spec fn is_digit(c: u8) -> bool {
    48 <= c && c <= 57
}

/// Powers of ten.
pub open spec fn pow10(n: nat) -> int
    decreases n,
{
    if n == 0 {
        1
    } else {
        10 * pow10((n - 1) as nat)
    }
}

/// The number a sequence of digit bytes denotes, most significant first.
pub open spec fn dec_value(s: Seq<u8>) -> int
    decreases s.len(),
{
    if s.len() == 0 {
        0
    } else {
        (s[0] - 48) * pow10((s.len() - 1) as nat) + dec_value(s.drop_first())
    }
}

/// The text of one IPv4 octet: one to three digits, value at most 255, and
/// no leading zero (except the single digit `0` itself).
pub open spec fn valid_octet_text(s: Seq<u8>) -> bool {
    &&& 1 <= s.len() <= 3
    &&& (forall|i: int| 0 <= i < s.len() ==> is_digit(s[i]))
    &&& dec_value(s) <= 255
    &&& (s.len() > 1 ==> s[0] != 48)
}

/// Splits a byte sequence on `'.'` (byte 46). The result always holds one
/// part more than the number of dots; empty parts stand for empty segments.
pub open spec fn split_dots(s: Seq<u8>) -> Seq<Seq<u8>>
    decreases s.len(),
{
    if s.len() == 0 {
        seq![Seq::<u8>::empty()]
    } else if s[0] == 46 {
        seq![Seq::<u8>::empty()] + split_dots(s.drop_first())
    } else {
        let rest = split_dots(s.drop_first());
        rest.update(0, seq![s[0]] + rest[0])
    }
}

/// The first few powers of ten.
proof fn lemma_pow10_small()
    ensures
        pow10(0) == 1,
        pow10(1) == 10,
        pow10(2) == 100,
        pow10(3) == 1000,
{
    assert(pow10(1) == 10 * pow10(0));
    assert(pow10(2) == 10 * pow10(1));
    assert(pow10(3) == 10 * pow10(2));
}

/// A digit string's value is non-negative and below `pow10` of its length.
proof fn lemma_dec_value_bound(s: Seq<u8>)
    requires
        forall|i: int| 0 <= i < s.len() ==> is_digit(s[i]),
    ensures
        0 <= dec_value(s) < pow10(s.len()),
    decreases s.len(),
{
    if s.len() > 0 {
        assert(is_digit(s[0]));
        lemma_dec_value_bound(s.drop_first());
        lemma_pow10_pos((s.len() - 1) as nat);
        assert(0 <= (s[0] - 48) * pow10((s.len() - 1) as nat) <= 9 * pow10((s.len() - 1) as nat))
            by (nonlinear_arith)
            requires
                0 <= s[0] - 48 <= 9,
                pow10((s.len() - 1) as nat) >= 1,
        ;
    }
}

/// Powers of ten are positive.
proof fn lemma_pow10_pos(n: nat)
    ensures
        pow10(n) >= 1,
    decreases n,
{
    if n > 0 {
        lemma_pow10_pos((n - 1) as nat);
    }
}

/// The dotted-quad reading of a byte sequence: the 32-bit value of the four
/// octets when the text splits into exactly four valid octet texts, nothing
/// otherwise.
pub open spec fn parse_ipv4_text(s: Seq<u8>) -> Option<u32> {
    let p = split_dots(s);
    if p.len() == 4 && valid_octet_text(p[0]) && valid_octet_text(p[1]) && valid_octet_text(p[2])
        && valid_octet_text(p[3]) {
        Some(
            (dec_value(p[0]) * 0x1000000 + dec_value(p[1]) * 0x10000 + dec_value(p[2]) * 0x100
                + dec_value(p[3])) as u32,
        )
    } else {
        None
    }
}

/// The split of the suffix of `s` that starts at `i`.
spec fn suffix_parts(s: Seq<u8>, i: int) -> Seq<Seq<u8>> {
    split_dots(s.subrange(i, s.len() as int))
}

/// Parses a dotted-quad IPv4 text into its 32-bit value.
///
/// The scan runs from the end of the text towards the front, so that each
/// step prepends one byte to the split of the suffix already processed,
/// exactly as `split_dots` is defined.
pub fn parse_ipv4(s: &[u8]) -> (r: Option<u32>)
    ensures
        r == parse_ipv4_text(s@),
{
    let len = s.len();
    let mut i: usize = len;
    // the in-progress first part of the suffix split
    let mut cur_len: usize = 0;
    let mut cur_digits: bool = true;
    let mut cur_val: u32 = 0;
    let mut first_is_zero: bool = false;
    // the completed parts to the right, newest first
    let mut ndots: usize = 0;
    let mut rest_valid: bool = true;
    let mut r1: u32 = 0;
    let mut r2: u32 = 0;
    let mut r3: u32 = 0;
    proof {
        assert(s@.subrange(len as int, s@.len() as int) =~= Seq::<u8>::empty());
    }
    while i > 0
        invariant
            0 <= i <= len,
            len == s@.len(),
            ndots <= len - i,
            cur_len <= len - i,
            suffix_parts(s@, i as int).len() == ndots + 1,
            cur_len == suffix_parts(s@, i as int)[0].len(),
            cur_digits == (forall|j: int|
                0 <= j < cur_len ==> is_digit(suffix_parts(s@, i as int)[0][j])),
            cur_len <= 3 && cur_digits ==> cur_val == dec_value(suffix_parts(s@, i as int)[0])
                && cur_val <= 999,
            cur_len >= 1 ==> first_is_zero == (suffix_parts(s@, i as int)[0][0] == 48),
            rest_valid == (forall|k: int|
                1 <= k < ndots + 1 ==> valid_octet_text(suffix_parts(s@, i as int)[k])),
            rest_valid && ndots >= 1 && ndots <= 3 ==> r1 == dec_value(suffix_parts(s@, i as int)[1])
                && r1 <= 255,
            rest_valid && ndots >= 2 && ndots <= 3 ==> r2 == dec_value(suffix_parts(s@, i as int)[2])
                && r2 <= 255,
            rest_valid && ndots == 3 ==> r3 == dec_value(suffix_parts(s@, i as int)[3]) && r3
                <= 255,
        decreases i,
    {
        let c = s[i - 1];
        proof {
            assert(s@.subrange(i - 1, s@.len() as int).len() == len - i + 1);
            assert(s@.subrange(i - 1, s@.len() as int)[0] == c);
            assert(s@.subrange(i - 1, s@.len() as int).drop_first() =~= s@.subrange(
                i as int,
                s@.len() as int,
            ));
        }
        if c == 46 {
            // close the current part: it becomes the newest completed part
            let cur_valid = 1 <= cur_len && cur_len <= 3 && cur_digits && cur_val <= 255 && !(
            cur_len > 1 && first_is_zero);
            proof {
                assert(cur_valid == valid_octet_text(suffix_parts(s@, i as int)[0]));
                assert(suffix_parts(s@, i - 1) == seq![Seq::<u8>::empty()] + suffix_parts(
                    s@,
                    i as int,
                ));
                assert(suffix_parts(s@, i - 1)[0] =~= Seq::<u8>::empty());
                assert forall|k: int| 1 <= k < ndots + 2 implies #[trigger] suffix_parts(
                    s@,
                    i - 1,
                )[k] == suffix_parts(s@, i as int)[k - 1] by {}
                if rest_valid && cur_valid {
                    assert forall|k: int| 1 <= k < ndots + 2 implies valid_octet_text(
                        #[trigger] suffix_parts(s@, i - 1)[k],
                    ) by {
                        assert(suffix_parts(s@, i - 1)[k] == suffix_parts(s@, i as int)[k - 1]);
                    }
                } else if !cur_valid {
                    assert(suffix_parts(s@, i - 1)[1] == suffix_parts(s@, i as int)[0]);
                    assert(!valid_octet_text(suffix_parts(s@, i - 1)[1]));
                } else {
                    assert(exists|k: int|
                        1 <= k < ndots + 1 && !valid_octet_text(
                            #[trigger] suffix_parts(s@, i as int)[k],
                        ));
                    let k0 = choose|k: int|
                        1 <= k < ndots + 1 && !valid_octet_text(
                            #[trigger] suffix_parts(s@, i as int)[k],
                        );
                    assert(suffix_parts(s@, i - 1)[k0 + 1] == suffix_parts(s@, i as int)[k0]);
                    assert(!valid_octet_text(suffix_parts(s@, i - 1)[k0 + 1]));
                }
            }
            if ndots <= 2 {
                r3 = r2;
                r2 = r1;
                r1 = cur_val;
            }
            rest_valid = rest_valid && cur_valid;
            ndots = ndots + 1;
            cur_len = 0;
            cur_digits = true;
            cur_val = 0;
            first_is_zero = false;
        } else {
            proof {
                let old_parts = suffix_parts(s@, i as int);
                assert(suffix_parts(s@, i - 1) == old_parts.update(0, seq![c] + old_parts[0]));
                assert(suffix_parts(s@, i - 1)[0] == seq![c] + old_parts[0]);
                assert((seq![c] + old_parts[0])[0] == c);
                assert((seq![c] + old_parts[0]).drop_first() =~= old_parts[0]);
                assert forall|k: int| 1 <= k < ndots + 1 implies #[trigger] suffix_parts(
                    s@,
                    i - 1,
                )[k] == old_parts[k] by {}
                if rest_valid {
                    assert forall|k: int| 1 <= k < ndots + 1 implies valid_octet_text(
                        #[trigger] suffix_parts(s@, i - 1)[k],
                    ) by {
                        assert(suffix_parts(s@, i - 1)[k] == old_parts[k]);
                    }
                } else {
                    assert(exists|k: int|
                        1 <= k < ndots + 1 && !valid_octet_text(#[trigger] old_parts[k]));
                    let k0 = choose|k: int|
                        1 <= k < ndots + 1 && !valid_octet_text(#[trigger] old_parts[k]);
                    assert(!valid_octet_text(suffix_parts(s@, i - 1)[k0]));
                }
            }
            let digit = 48 <= c && c <= 57;
            if cur_len < 3 && digit && cur_digits {
                let p: u32 = if cur_len == 0 {
                    1
                } else if cur_len == 1 {
                    10
                } else {
                    100
                };
                proof {
                    lemma_pow10_small();
                    let u = seq![c] + suffix_parts(s@, i as int)[0];
                    assert(u.drop_first() =~= suffix_parts(s@, i as int)[0]);
                    lemma_dec_value_bound(u);
                }
                cur_val = (c - 48) as u32 * p + cur_val;
            }
            cur_digits = cur_digits && digit;
            cur_len = cur_len + 1;
            first_is_zero = c == 48;
        }
        i = i - 1;
    }
    proof {
        assert(s@.subrange(0, s@.len() as int) =~= s@);
    }
    let cur_valid = 1 <= cur_len && cur_len <= 3 && cur_digits && cur_val <= 255 && !(cur_len > 1
        && first_is_zero);
    proof {
        assert(cur_valid == valid_octet_text(split_dots(s@)[0]));
    }
    if ndots == 3 && rest_valid && cur_valid {
        Some(cur_val * 0x1000000 + r1 * 0x10000 + r2 * 0x100 + r3)
    } else {
        None
    }
}

/// Decides `ip_lt` on concrete values.
pub fn ip_less(a: &IpAddress, b: &IpAddress) -> (r: bool)
    ensures
        r == ip_lt(*a, *b),
{
    match (a, b) {
        (IpAddress::V4(x), IpAddress::V4(y)) => *x < *y,
        (IpAddress::V4(_), IpAddress::V6(_)) => true,
        (IpAddress::V6(_), IpAddress::V4(_)) => false,
        (IpAddress::V6(x), IpAddress::V6(y)) => *x < *y,
    }
}

/// Decides `addr_lt` on concrete values.
pub fn addr_less(a: &SockAddr, b: &SockAddr) -> (r: bool)
    ensures
        r == addr_lt(*a, *b),
{
    if ip_less(&a.ip, &b.ip) {
        true
    } else if a.ip == b.ip {
        a.port < b.port
    } else {
        false
    }
}

} // verus!
