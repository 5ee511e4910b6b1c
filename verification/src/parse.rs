//! Addresses read from text.
use crate::addr::{IpAddr, Ipv4Addr, Ipv6Addr, SocketAddr, SocketAddrV4, SocketAddrV6};
use vstd::prelude::*;
use vstd::slice::slice_subrange;

verus! {

/// What stands between the separators: one piece more than there are separators.
pub open spec fn split(s: Seq<char>, sep: char) -> Seq<Seq<char>>
    decreases s.len(),
{
    if s.len() == 0 {
        seq![Seq::empty()]
    } else {
        let front = split(s.drop_last(), sep);
        if s.last() == sep {
            front.push(Seq::empty())
        } else {
            front.drop_last().push(front.last().push(s.last()))
        }
    }
}

/// The value of a digit, in bases up to 16.
pub open spec fn digit_value(c: char, radix: nat) -> Option<nat> {
    let value = if '0' <= c <= '9' {
        (c as nat - '0' as nat) as nat
    } else if 'a' <= c <= 'f' {
        (c as nat - 'a' as nat + 10) as nat
    } else if 'A' <= c <= 'F' {
        (c as nat - 'A' as nat + 10) as nat
    } else {
        radix
    };
    if value < radix {
        Some(value)
    } else {
        None
    }
}

/// The value of some digits, if all are digits.
pub open spec fn digits_value(s: Seq<char>, radix: nat) -> Option<nat>
    decreases s.len(),
{
    if s.len() == 0 {
        Some(0)
    } else {
        match (digits_value(s.drop_last(), radix), digit_value(s.last(), radix)) {
            (Some(front), Some(last)) => Some(front * radix + last),
            _ => None,
        }
    }
}

/// A number: at least one digit, and no more than `max`.
pub open spec fn number(s: Seq<char>, radix: nat, max: nat) -> Option<nat> {
    match digits_value(s, radix) {
        Some(value) => if s.len() > 0 && value <= max {
            Some(value)
        } else {
            None
        },
        None => None,
    }
}

/// One part of an IPv4 address: a number up to 255 without leading zeros.
pub open spec fn octet(s: Seq<char>) -> Option<u8> {
    match number(s, 10, 255) {
        Some(value) => if s.len() == 1 || s[0] != '0' {
            Some(value as u8)
        } else {
            None
        },
        None => None,
    }
}

/// An IPv4 address: four parts with dots between them.
pub open spec fn ipv4(s: Seq<char>) -> Option<Ipv4Addr> {
    let parts = split(s, '.');
    if parts.len() == 4 {
        match (octet(parts[0]), octet(parts[1]), octet(parts[2]), octet(parts[3])) {
            (Some(a), Some(b), Some(c), Some(d)) => Some(Ipv4Addr { a, b, c, d }),
            _ => None,
        }
    } else {
        None
    }
}

/// One part of an IPv6 address: up to four hexadecimal digits.
pub open spec fn segment(s: Seq<char>) -> Option<u16> {
    match number(s, 16, 0xffff) {
        Some(value) => if s.len() <= 4 {
            Some(value as u16)
        } else {
            None
        },
        None => None,
    }
}

/// The segments in a list of parts. The last part may be an IPv4 address, if `v4` says so; it
/// counts for two.
pub open spec fn segments_of(parts: Seq<Seq<char>>, v4: bool) -> Option<Seq<u16>>
    decreases parts.len(),
{
    if parts.len() == 0 {
        Some(Seq::empty())
    } else {
        match (segments_of(parts.drop_last(), false), segment(parts.last()), ipv4(parts.last())) {
            (Some(front), Some(value), _) => Some(front.push(value)),
            (Some(front), None, Some(ip)) => if v4 {
                Some(front.push(pair(ip.a, ip.b)).push(pair(ip.c, ip.d)))
            } else {
                None
            },
            _ => None,
        }
    }
}

/// Two bytes as one number.
pub open spec fn pair(high: u8, low: u8) -> u16 {
    (high * 256 + low) as u16
}

/// The segments of one side of an IPv6 address: none, or some with colons between them.
pub open spec fn segments(s: Seq<char>, v4: bool) -> Option<Seq<u16>> {
    if s.len() == 0 {
        Some(Seq::empty())
    } else {
        segments_of(split(s, ':'), v4)
    }
}

/// Where the first two colons in a row stand, from `i` on.
pub open spec fn double_colon(s: Seq<char>, i: int) -> Option<int>
    decreases s.len() - i,
{
    if i + 1 >= s.len() {
        None
    } else if s[i] == ':' && s[i + 1] == ':' {
        Some(i)
    } else {
        double_colon(s, i + 1)
    }
}

/// Eight segments as one address.
pub open spec fn ipv6_of(s: Seq<u16>) -> Ipv6Addr {
    Ipv6Addr {
        bits: ((s[0] as u128) << 112) | ((s[1] as u128) << 96) | ((s[2] as u128) << 80) | ((
        s[3] as u128) << 64) | ((s[4] as u128) << 48) | ((s[5] as u128) << 32) | ((s[6] as u128)
            << 16) | (s[7] as u128),
    }
}

/// An IPv6 address: eight segments, or two colons in place of one or more that are zero.
#[verifier::opaque]
pub open spec fn ipv6(s: Seq<char>) -> Option<Ipv6Addr> {
    match double_colon(s, 0) {
        None => match segments(s, true) {
            Some(all) => if all.len() == 8 {
                Some(ipv6_of(all))
            } else {
                None
            },
            None => None,
        },
        Some(i) => match (segments(s.take(i), false), segments(s.skip(i + 2), true)) {
            (Some(head), Some(tail)) => if head.len() + tail.len() <= 7 {
                let zeros = Seq::new((8 - head.len() - tail.len()) as nat, |k: int| 0u16);
                Some(ipv6_of(head + zeros + tail))
            } else {
                None
            },
            _ => None,
        },
    }
}

/// An address of either kind.
pub open spec fn ip_addr(s: Seq<char>) -> Option<IpAddr> {
    match (ipv4(s), ipv6(s)) {
        (Some(ip), _) => Some(IpAddr::V4(ip)),
        (None, Some(ip)) => Some(IpAddr::V6(ip)),
        (None, None) => None,
    }
}

/// An IPv4 address, a colon and a port.
pub open spec fn socket_addr_v4(s: Seq<char>) -> Option<SocketAddrV4> {
    let parts = split(s, ':');
    if parts.len() == 2 {
        match (ipv4(parts[0]), number(parts[1], 10, 0xffff)) {
            (Some(ip), Some(port)) => Some(SocketAddrV4 { ip, port: port as u16 }),
            _ => None,
        }
    } else {
        None
    }
}

/// An IPv6 address, with or without a percent sign and the number of a scope.
pub open spec fn scoped_ipv6(s: Seq<char>) -> Option<(Ipv6Addr, u32)> {
    let parts = split(s, '%');
    if parts.len() == 1 {
        match ipv6(s) {
            Some(ip) => Some((ip, 0)),
            None => None,
        }
    } else if parts.len() == 2 {
        match (ipv6(parts[0]), number(parts[1], 10, 0xffff_ffff)) {
            (Some(ip), Some(scope_id)) => Some((ip, scope_id as u32)),
            _ => None,
        }
    } else {
        None
    }
}

/// An IPv6 address in square brackets, a colon and a port.
pub open spec fn socket_addr_v6(s: Seq<char>) -> Option<SocketAddrV6> {
    let parts = split(s, ']');
    if parts.len() == 2 && parts[0].len() > 0 && parts[0][0] == '[' && parts[1].len() > 0
        && parts[1][0] == ':' {
        match (scoped_ipv6(parts[0].skip(1)), number(parts[1].skip(1), 10, 0xffff)) {
            (Some((ip, scope_id)), Some(port)) => Some(
                SocketAddrV6 { ip, port: port as u16, flowinfo: 0, scope_id },
            ),
            _ => None,
        }
    } else {
        None
    }
}

/// An address of either kind with a port.
pub open spec fn socket_addr(s: Seq<char>) -> Option<SocketAddr> {
    match (socket_addr_v4(s), socket_addr_v6(s)) {
        (Some(addr), _) => Some(SocketAddr::V4(addr)),
        (None, Some(addr)) => Some(SocketAddr::V6(addr)),
        (None, None) => None,
    }
}

/// A port alone: an optional plus sign and a number.
pub open spec fn port(s: Seq<char>) -> Option<u16> {
    let digits = if s.len() > 0 && s[0] == '+' {
        s.skip(1)
    } else {
        s
    };
    match number(digits, 10, 0xffff) {
        Some(value) => Some(value as u16),
        None => None,
    }
}

/// There is always a piece.
pub proof fn lemma_split_some(s: Seq<char>, sep: char)
    ensures
        split(s, sep).len() > 0,
    decreases s.len(),
{
    if s.len() > 0 {
        lemma_split_some(s.drop_last(), sep);
    }
}

/// The pieces as sequences.
pub open spec fn texts(parts: Seq<Vec<char>>) -> Seq<Seq<char>> {
    parts.map_values(|part: Vec<char>| part@)
}

/// The characters of a text.
pub fn characters(text: &str) -> (chars: Vec<char>)
    ensures
        chars@ == text@,
{
    let len = text.unicode_len();
    let mut chars: Vec<char> = Vec::new();
    let mut i: usize = 0;
    while i < len
        invariant
            i <= len,
            len == text@.len(),
            chars@ == text@.take(i as int),
        decreases len - i,
    {
        chars.push(text.get_char(i));
        i = i + 1;
        assert(chars@ =~= text@.take(i as int));
    }
    assert(text@.take(len as int) =~= text@);
    chars
}

/// Splits a text at the separators.
pub fn split_text(s: &[char], sep: char) -> (parts: Vec<Vec<char>>)
    ensures
        texts(parts@) == split(s@, sep),
{
    let mut parts: Vec<Vec<char>> = Vec::new();
    let mut current: Vec<char> = Vec::new();
    let mut i: usize = 0;
    assert(texts(parts@).push(current@) =~= split(s@.take(0), sep));
    while i < s.len()
        invariant
            i <= s@.len(),
            texts(parts@).push(current@) == split(s@.take(i as int), sep),
        decreases s@.len() - i,
    {
        let ghost before = texts(parts@).push(current@);
        let ghost old_parts = texts(parts@);
        let ghost old_current = current@;
        assert(s@.take(i + 1).drop_last() =~= s@.take(i as int));
        assert(s@.take(i + 1).last() == s@[i as int]);
        assert(before.drop_last() =~= old_parts);
        let c = s[i];
        if c == sep {
            parts.push(current);
            current = Vec::new();
            assert(texts(parts@) =~= old_parts.push(old_current));
            assert(current@ =~= Seq::<char>::empty());
        } else {
            current.push(c);
        }
        i = i + 1;
    }
    assert(s@.take(s@.len() as int) =~= s@);
    let ghost old_parts = texts(parts@);
    let ghost old_current = current@;
    parts.push(current);
    assert(texts(parts@) =~= old_parts.push(old_current));
    parts
}

fn read_digit(c: char, radix: u32) -> (value: Option<u32>)
    requires
        radix <= 16,
    ensures
        match value {
            Some(value) => digit_value(c, radix as nat) == Some(value as nat),
            None => digit_value(c, radix as nat) is None,
        },
{
    let value: u32 = if '0' <= c && c <= '9' {
        c as u32 - '0' as u32
    } else if 'a' <= c && c <= 'f' {
        c as u32 - 'a' as u32 + 10
    } else if 'A' <= c && c <= 'F' {
        c as u32 - 'A' as u32 + 10
    } else {
        radix
    };
    if value < radix {
        Some(value)
    } else {
        None
    }
}

/// More digits never make a number smaller.
proof fn lemma_digits_grow(s: Seq<char>, radix: nat, i: int)
    requires
        0 <= i <= s.len(),
        radix > 0,
        digits_value(s, radix) is Some,
    ensures
        digits_value(s.take(i), radix) is Some,
        digits_value(s.take(i), radix)->0 <= digits_value(s, radix)->0,
    decreases s.len() - i,
{
    if i == s.len() {
        assert(s.take(i) =~= s);
    } else {
        lemma_digits_grow(s, radix, i + 1);
        assert(s.take(i + 1).drop_last() =~= s.take(i));
        let front = digits_value(s.take(i), radix)->0;
        assert(front * radix >= front) by (nonlinear_arith)
            requires
                radix > 0,
        ;
    }
}

/// Reads a number.
pub fn read_number(s: &[char], radix: u32, max: u32) -> (value: Option<u32>)
    requires
        2 <= radix <= 16,
    ensures
        match value {
            Some(value) => number(s@, radix as nat, max as nat) == Some(value as nat),
            None => number(s@, radix as nat, max as nat) is None,
        },
{
    let mut value: u64 = 0;
    let mut i: usize = 0;
    while i < s.len()
        invariant
            i <= s@.len(),
            2 <= radix <= 16,
            value <= max,
            digits_value(s@.take(i as int), radix as nat) == Some(value as nat),
        decreases s@.len() - i,
    {
        assert(s@.take(i + 1).drop_last() =~= s@.take(i as int));
        assert(s@.take(i + 1).last() == s@[i as int]);
        match read_digit(s[i], radix) {
            Some(digit) => {
                assert(value * radix <= 0xffff_ffff * 16) by (nonlinear_arith)
                    requires
                        value <= 0xffff_ffff,
                        radix <= 16,
                ;
                value = value * radix as u64 + digit as u64;
            },
            None => {
                proof {
                    if digits_value(s@, radix as nat) is Some {
                        lemma_digits_grow(s@, radix as nat, i + 1);
                    }
                }
                return None;
            },
        }
        if value > max as u64 {
            proof {
                if digits_value(s@, radix as nat) is Some {
                    lemma_digits_grow(s@, radix as nat, i + 1);
                }
            }
            return None;
        }
        i = i + 1;
    }
    assert(s@.take(s@.len() as int) =~= s@);
    if s.len() > 0 {
        Some(value as u32)
    } else {
        None
    }
}

fn read_octet(s: &[char]) -> (value: Option<u8>)
    ensures
        value == octet(s@),
{
    match read_number(s, 10, 255) {
        Some(value) => if s.len() == 1 || s[0] != '0' {
            Some(value as u8)
        } else {
            None
        },
        None => None,
    }
}

/// Reads an IPv4 address.
pub fn read_ipv4(s: &[char]) -> (ip: Option<Ipv4Addr>)
    ensures
        ip == ipv4(s@),
{
    let parts = split_text(s, '.');
    assert(parts@.len() == split(s@, '.').len());
    if parts.len() != 4 {
        return None;
    }
    assert(parts@[0]@ == split(s@, '.')[0]);
    assert(parts@[1]@ == split(s@, '.')[1]);
    assert(parts@[2]@ == split(s@, '.')[2]);
    assert(parts@[3]@ == split(s@, '.')[3]);
    match (
        read_octet(parts[0].as_slice()),
        read_octet(parts[1].as_slice()),
        read_octet(parts[2].as_slice()),
        read_octet(parts[3].as_slice()),
    ) {
        (Some(a), Some(b), Some(c), Some(d)) => Some(Ipv4Addr { a, b, c, d }),
        _ => None,
    }
}

fn read_segment(s: &[char]) -> (value: Option<u16>)
    ensures
        value == segment(s@),
{
    match read_number(s, 16, 0xffff) {
        Some(value) => if s.len() <= 4 {
            Some(value as u16)
        } else {
            None
        },
        None => None,
    }
}

/// Reads one side of an IPv6 address.
fn read_segments(s: &[char], v4: bool) -> (all: Option<Vec<u16>>)
    ensures
        match all {
            Some(all) => segments(s@, v4) == Some(all@),
            None => segments(s@, v4) is None,
        },
{
    let mut all: Vec<u16> = Vec::new();
    if s.len() == 0 {
        assert(all@ =~= Seq::<u16>::empty());
        return Some(all);
    }
    let parts = split_text(s, ':');
    let ghost pieces = split(s@, ':');
    proof {
        lemma_split_some(s@, ':');
        assert(parts@.len() == pieces.len());
    }
    let last = parts.len() - 1;
    let mut i: usize = 0;
    assert(all@ =~= Seq::<u16>::empty());
    assert(pieces.take(0).len() == 0);
    while i < last
        invariant
            i <= last,
            last == parts@.len() - 1,
            pieces == texts(parts@),
            pieces == split(s@, ':'),
            s@.len() > 0,
            segments_of(pieces.take(i as int), false) == Some(all@),
        decreases last - i,
    {
        assert(pieces.take(i + 1).drop_last() =~= pieces.take(i as int));
        assert(pieces.take(i + 1).last() == parts@[i as int]@);
        match read_segment(parts[i].as_slice()) {
            Some(value) => {
                all.push(value);
            },
            None => {
                proof {
                    assert(segments_of(pieces.take(i + 1), false) is None);
                    lemma_segments_fail(pieces, i + 1, v4);
                }
                return None;
            },
        }
        i = i + 1;
    }
    assert(pieces.drop_last() =~= pieces.take(last as int));
    assert(pieces.last() == parts@[last as int]@);
    match read_segment(parts[last].as_slice()) {
        Some(value) => {
            all.push(value);
            Some(all)
        },
        None => {
            if !v4 {
                return None;
            }
            match read_ipv4(parts[last].as_slice()) {
                Some(ip) => {
                    all.push(ip.a as u16 * 256 + ip.b as u16);
                    all.push(ip.c as u16 * 256 + ip.d as u16);
                    Some(all)
                },
                None => None,
            }
        },
    }
}

/// Parts that cannot be read before the last make the whole list unreadable.
proof fn lemma_segments_fail(parts: Seq<Seq<char>>, i: int, v4: bool)
    requires
        0 <= i < parts.len(),
        segments_of(parts.take(i), false) is None,
    ensures
        segments_of(parts, v4) is None,
    decreases parts.len(),
{
    let front = parts.drop_last();
    if i < front.len() {
        assert(front.take(i) =~= parts.take(i));
        lemma_segments_fail(front, i, false);
    } else {
        assert(front =~= parts.take(i));
    }
}

fn find_double_colon(s: &[char]) -> (at: Option<usize>)
    ensures
        match at {
            Some(i) => double_colon(s@, 0) == Some(i as int) && i + 1 < s@.len(),
            None => double_colon(s@, 0) is None,
        },
{
    if s.len() < 2 {
        return None;
    }
    let mut i: usize = 0;
    while i < s.len() - 1
        invariant
            2 <= s@.len(),
            i <= s@.len() - 1,
            double_colon(s@, 0) == double_colon(s@, i as int),
        decreases s@.len() - i,
    {
        if s[i] == ':' && s[i + 1] == ':' {
            return Some(i);
        }
        i = i + 1;
    }
    None
}

fn make_ipv6(s: &Vec<u16>) -> (ip: Ipv6Addr)
    requires
        s@.len() == 8,
    ensures
        ip == ipv6_of(s@),
{
    Ipv6Addr {
        bits: ((s[0] as u128) << 112) | ((s[1] as u128) << 96) | ((s[2] as u128) << 80) | ((
        s[3] as u128) << 64) | ((s[4] as u128) << 48) | ((s[5] as u128) << 32) | ((s[6] as u128)
            << 16) | (s[7] as u128),
    }
}

/// Reads an IPv6 address.
pub fn read_ipv6(s: &[char]) -> (ip: Option<Ipv6Addr>)
    ensures
        ip == ipv6(s@),
{
    reveal(ipv6);
    match find_double_colon(s) {
        None => match read_segments(s, true) {
            Some(all) => if all.len() == 8 {
                Some(make_ipv6(&all))
            } else {
                None
            },
            None => None,
        },
        Some(i) => {
            let len = s.len();
            let before = slice_subrange(s, 0, i);
            let after = slice_subrange(s, i + 2, len);
            assert(before@ =~= s@.take(i as int));
            assert(after@ =~= s@.skip(i + 2));
            match (read_segments(before, false), read_segments(after, true)) {
                (Some(head), Some(tail)) => {
                    if head.len() > 7 || tail.len() > 7 - head.len() {
                        return None;
                    }
                    let ghost zeros = Seq::new((8 - head@.len() - tail@.len()) as nat, |k: int| 0u16);
                    let mut all = head;
                    while all.len() < 8 - tail.len()
                        invariant
                            head@.len() + tail@.len() <= 7,
                            zeros == Seq::new((8 - head@.len() - tail@.len()) as nat, |k: int| 0u16),
                            head@.len() <= all@.len() <= 8 - tail@.len(),
                            all@ == head@ + zeros.take(all@.len() - head@.len()),
                        decreases 8 - all@.len(),
                    {
                        all.push(0);
                        assert(all@ =~= head@ + zeros.take(all@.len() - head@.len()));
                    }
                    assert(all@ =~= head@ + zeros);
                    let mut k: usize = 0;
                    while k < tail.len()
                        invariant
                            k <= tail@.len(),
                            all@ == head@ + zeros + tail@.take(k as int),
                        decreases tail@.len() - k,
                    {
                        all.push(tail[k]);
                        k = k + 1;
                        assert(all@ =~= head@ + zeros + tail@.take(k as int));
                    }
                    assert(all@ =~= head@ + zeros + tail@);
                    Some(make_ipv6(&all))
                },
                _ => None,
            }
        },
    }
}

/// Reads an address of either kind.
pub fn read_ip_addr(s: &[char]) -> (ip: Option<IpAddr>)
    ensures
        ip == ip_addr(s@),
{
    match read_ipv4(s) {
        Some(ip) => Some(IpAddr::V4(ip)),
        None => match read_ipv6(s) {
            Some(ip) => Some(IpAddr::V6(ip)),
            None => None,
        },
    }
}

fn read_socket_addr_v4(s: &[char]) -> (addr: Option<SocketAddrV4>)
    ensures
        addr == socket_addr_v4(s@),
{
    let parts = split_text(s, ':');
    assert(parts@.len() == split(s@, ':').len());
    if parts.len() != 2 {
        return None;
    }
    assert(parts@[0]@ == split(s@, ':')[0]);
    assert(parts@[1]@ == split(s@, ':')[1]);
    match (read_ipv4(parts[0].as_slice()), read_number(parts[1].as_slice(), 10, 0xffff)) {
        (Some(ip), Some(port)) => Some(SocketAddrV4 { ip, port: port as u16 }),
        _ => None,
    }
}

fn read_scoped_ipv6(s: &[char]) -> (ip: Option<(Ipv6Addr, u32)>)
    ensures
        ip == scoped_ipv6(s@),
{
    let parts = split_text(s, '%');
    assert(parts@.len() == split(s@, '%').len());
    if parts.len() == 1 {
        match read_ipv6(s) {
            Some(ip) => Some((ip, 0)),
            None => None,
        }
    } else if parts.len() == 2 {
        assert(parts@[0]@ == split(s@, '%')[0]);
        assert(parts@[1]@ == split(s@, '%')[1]);
        match (read_ipv6(parts[0].as_slice()), read_number(parts[1].as_slice(), 10, 0xffff_ffff)) {
            (Some(ip), Some(scope_id)) => Some((ip, scope_id)),
            _ => None,
        }
    } else {
        None
    }
}

fn read_socket_addr_v6(s: &[char]) -> (addr: Option<SocketAddrV6>)
    ensures
        addr == socket_addr_v6(s@),
{
    let parts = split_text(s, ']');
    assert(parts@.len() == split(s@, ']').len());
    if parts.len() != 2 {
        return None;
    }
    assert(parts@[0]@ == split(s@, ']')[0]);
    assert(parts@[1]@ == split(s@, ']')[1]);
    let host = parts[0].as_slice();
    let rest = parts[1].as_slice();
    if host.len() == 0 || host[0] != '[' || rest.len() == 0 || rest[0] != ':' {
        return None;
    }
    let host = slice_subrange(host, 1, host.len());
    let rest = slice_subrange(rest, 1, rest.len());
    assert(host@ =~= parts@[0]@.skip(1));
    assert(rest@ =~= parts@[1]@.skip(1));
    match (read_scoped_ipv6(host), read_number(rest, 10, 0xffff)) {
        (Some((ip, scope_id)), Some(port)) => Some(
            SocketAddrV6 { ip, port: port as u16, flowinfo: 0, scope_id },
        ),
        _ => None,
    }
}

/// Reads an address of either kind with a port.
pub fn read_socket_addr(s: &[char]) -> (addr: Option<SocketAddr>)
    ensures
        addr == socket_addr(s@),
{
    match read_socket_addr_v4(s) {
        Some(addr) => Some(SocketAddr::V4(addr)),
        None => match read_socket_addr_v6(s) {
            Some(addr) => Some(SocketAddr::V6(addr)),
            None => None,
        },
    }
}

/// Reads a port alone.
pub fn read_port(s: &[char]) -> (value: Option<u16>)
    ensures
        value == port(s@),
{
    let digits = if s.len() > 0 && s[0] == '+' {
        slice_subrange(s, 1, s.len())
    } else {
        s
    };
    proof {
        if s@.len() > 0 && s@[0] == '+' {
            assert(digits@ =~= s@.skip(1));
        }
    }
    match read_number(digits, 10, 0xffff) {
        Some(value) => Some(value as u16),
        None => None,
    }
}

} // verus!
