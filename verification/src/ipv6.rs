//! Addresses written out, IPv6 among them, and read back.
use crate::addr::{with_port, IpAddr, Ipv4Addr, Ipv6Addr, SocketAddr, SocketAddrV6};
use crate::listen::{default_listen_addr, listen_sockaddr, ListenError, DEFAULT_LISTEN_PORT};
use crate::parse::{
    digit_value, digits_value, double_colon, ip_addr, ipv6, ipv6_of, number, pair, scoped_ipv6,
    segment, segments, segments_of, socket_addr, socket_addr_v6, split,
};
use crate::readback::{
    free_of, law_authority_reads_back, law_dotted_reads_back, law_port_reads_back,
    law_readings_exclude_each_other, lemma_decimal_free, lemma_decimal_value,
    lemma_digits_are_digits, lemma_dotted_free, lemma_split_append, lemma_split_free,
};
use crate::text::{decimal, hex_character, hexadecimal, is_digit, lemma_decimal_digits};
use crate::uri::{authority, dotted};
use vstd::prelude::*;

verus! {

/// The eight segments of an address, the first in the highest bits.
pub open spec fn parts(ip: Ipv6Addr) -> Seq<u16> {
    Seq::new(8, |i: int| ((ip.bits >> ((112 - 16 * i) as u128)) & 0xffff) as u16)
}

/// Segments in hexadecimal, with colons between them.
pub open spec fn colon_separated(segs: Seq<u16>) -> Seq<char>
    decreases segs.len(),
{
    if segs.len() == 0 {
        Seq::empty()
    } else if segs.len() == 1 {
        hexadecimal(segs[0] as nat)
    } else {
        colon_separated(segs.drop_last()) + seq![':'] + hexadecimal(segs.last() as nat)
    }
}

/// Two segments as an IPv4 address.
pub open spec fn quad(high: u16, low: u16) -> Ipv4Addr {
    Ipv4Addr {
        a: (high / 256) as u8,
        b: (high % 256) as u8,
        c: (low / 256) as u8,
        d: (low % 256) as u8,
    }
}

/// One side of an address. If `v4` says so, its last two segments stand as an IPv4 address.
pub open spec fn side(segs: Seq<u16>, v4: bool) -> Seq<char> {
    if v4 {
        let front = segs.take(segs.len() - 2);
        let end = dotted(quad(segs[segs.len() - 2], segs[segs.len() - 1]));
        if front.len() == 0 {
            end
        } else {
            colon_separated(front) + seq![':'] + end
        }
    } else {
        colon_separated(segs)
    }
}

/// A way to write an address.
pub struct Ipv6Form {
    /// The segments that two colons stand for: the number of the first, and how many.
    pub zeros: Option<(nat, nat)>,
    /// Whether the last two segments stand as an IPv4 address.
    pub v4: bool,
}

impl Ipv6Form {
    /// The address can be written in this way: two colons stand for zeros only, and not for a
    /// segment of the IPv4 address.
    pub open spec fn fits(self, ip: Ipv6Addr) -> bool {
        match self.zeros {
            None => true,
            Some((start, len)) => {
                &&& 0 < len
                &&& start + len <= 8
                &&& self.v4 ==> start + len <= 6
                &&& forall|i: int| start <= i < start + len ==> #[trigger] parts(ip)[i] == 0
            },
        }
    }

    /// The address, written in this way.
    pub open spec fn text(self, ip: Ipv6Addr) -> Seq<char> {
        match self.zeros {
            None => side(parts(ip), self.v4),
            Some((start, len)) => side(parts(ip).take(start as int), false) + seq![':', ':'] + side(
                parts(ip).skip((start + len) as int),
                self.v4,
            ),
        }
    }
}

/// How many zeros follow one another, from number `i` on.
pub open spec fn zeros_from(segs: Seq<u16>, i: int) -> nat
    decreases segs.len() - i,
{
    if 0 <= i < segs.len() && segs[i] == 0 {
        1 + zeros_from(segs, i + 1)
    } else {
        0
    }
}

/// Where the most zeros follow one another, of the first `n` segments. Of two such places the
/// first counts.
pub open spec fn most_zeros(segs: Seq<u16>, n: nat) -> nat
    decreases n,
{
    if n == 0 {
        0
    } else {
        let best = most_zeros(segs, (n - 1) as nat);
        if zeros_from(segs, best as int) < zeros_from(segs, n - 1) {
            (n - 1) as nat
        } else {
            best
        }
    }
}

/// The usual way to write an address. An IPv4 address in IPv6 is written as such. Otherwise two
/// colons stand for the longest row of zeros, if there is one of two or more.
pub open spec fn usual_form(ip: Ipv6Addr) -> Ipv6Form {
    let segs = parts(ip);
    let start = most_zeros(segs, 8);
    let len = zeros_from(segs, start as int);
    if zeros_from(segs, 0) == 5 && segs[5] == 0xffff {
        Ipv6Form { zeros: Some((0, 5)), v4: true }
    } else if len >= 2 {
        Ipv6Form { zeros: Some((start, len)), v4: false }
    } else {
        Ipv6Form { zeros: None, v4: false }
    }
}

/// An address in the usual way.
pub open spec fn ipv6_text(ip: Ipv6Addr) -> Seq<char> {
    usual_form(ip).text(ip)
}

/// An address with its scope, if that is not zero.
pub open spec fn scoped(ip: Seq<char>, scope_id: u32) -> Seq<char> {
    if scope_id == 0 {
        ip
    } else {
        ip + seq!['%'] + decimal(scope_id as nat)
    }
}

/// A text for an address in square brackets, with the scope if that is not zero, and with the
/// port.
pub open spec fn in_brackets(ip: Seq<char>, addr: SocketAddrV6) -> Seq<char> {
    seq!['['] + scoped(ip, addr.scope_id) + seq![']', ':'] + decimal(addr.port as nat)
}

/// An address written in some way, in square brackets and with its scope and port.
pub open spec fn bracketed(addr: SocketAddrV6, form: Ipv6Form) -> Seq<char> {
    in_brackets(form.text(addr.ip), addr)
}

/// `c` can stand in an address.
spec fn is_address_character(c: char) -> bool {
    is_digit(c) || 'a' <= c <= 'f' || c == ':' || c == '.'
}

/// There are two colons in a row at `i`.
pub open spec fn colons_at(s: Seq<char>, i: int) -> bool {
    s[i] == ':' && s[i + 1] == ':'
}

/// No two colons in a row, and none at either end.
pub open spec fn tidy(s: Seq<char>) -> bool {
    &&& forall|i: int| 0 <= i < s.len() - 1 ==> !#[trigger] colons_at(s, i)
    &&& s.len() > 0 ==> s[0] != ':' && s.last() != ':'
}

/// A tidy text with only characters of an address.
spec fn neat(s: Seq<char>) -> bool {
    &&& forall|i: int| 0 <= i < s.len() ==> is_address_character(#[trigger] s[i])
    &&& tidy(s)
}

/// The segments of an address make the address.
pub proof fn lemma_parts(ip: Ipv6Addr)
    ensures
        ipv6_of(parts(ip)) == ip,
{
    let b = ip.bits;
    let p = parts(ip);
    assert forall|i: int| 0 <= i < 8 implies #[trigger] p[i] as u128 == (b >> ((112 - 16
        * i) as u128)) & 0xffff by {
        let shift = (112 - 16 * i) as u128;
        assert((b >> shift) & 0xffff <= 0xffff) by (bit_vector);
    }
    assert(p[0] as u128 == (b >> 112) & 0xffff);
    assert(p[1] as u128 == (b >> 96) & 0xffff);
    assert(p[2] as u128 == (b >> 80) & 0xffff);
    assert(p[3] as u128 == (b >> 64) & 0xffff);
    assert(p[4] as u128 == (b >> 48) & 0xffff);
    assert(p[5] as u128 == (b >> 32) & 0xffff);
    assert(p[6] as u128 == (b >> 16) & 0xffff);
    assert(p[7] as u128 == (b >> 0) & 0xffff);
    assert(b == (((b >> 112) & 0xffff) << 112) | (((b >> 96) & 0xffff) << 96) | (((b >> 80)
        & 0xffff) << 80) | (((b >> 64) & 0xffff) << 64) | (((b >> 48) & 0xffff) << 48) | (((b >> 32)
        & 0xffff) << 32) | (((b >> 16) & 0xffff) << 16) | ((b >> 0) & 0xffff)) by (bit_vector);
}

proof fn lemma_hexadecimal(n: nat)
    ensures
        digits_value(hexadecimal(n), 16) == Some(n),
        hexadecimal(n).len() > 0,
        forall|i: int|
            0 <= i < hexadecimal(n).len() ==> is_digit(#[trigger] hexadecimal(n)[i]) || 'a'
                <= hexadecimal(n)[i] <= 'f',
    decreases n,
{
    let text = hexadecimal(n);
    if n < 16 {
        assert(text.drop_last() =~= Seq::<char>::empty());
        assert(digits_value(text.drop_last(), 16) == Some(0nat));
        assert(digit_value(hex_character(n), 16) == Some(n));
    } else {
        lemma_hexadecimal(n / 16);
        assert(text.drop_last() =~= hexadecimal(n / 16));
        assert(digit_value(hex_character(n % 16), 16) == Some(n % 16));
    }
}

/// A segment in hexadecimal reads as that segment.
proof fn lemma_segment(value: u16)
    ensures
        segment(hexadecimal(value as nat)) == Some(value),
{
    let n = value as nat;
    lemma_hexadecimal(n);
    assert(hexadecimal(n).len() <= 4) by {
        assert(n / 16 / 16 / 16 < 16);
        reveal_with_fuel(hexadecimal, 4);
    }
}

/// A tidy text, a colon and another tidy text make a tidy text.
pub proof fn lemma_tidy_joined(front: Seq<char>, last: Seq<char>)
    requires
        tidy(front),
        tidy(last),
        front.len() > 0,
        last.len() > 0,
    ensures
        tidy(front + seq![':'] + last),
{
    let all = front + seq![':'] + last;
    assert forall|i: int| 0 <= i < all.len() - 1 implies !#[trigger] colons_at(all, i) by {
        if i < front.len() - 1 {
            assert(!colons_at(front, i));
        } else if i > front.len() {
            assert(!colons_at(last, i - front.len() - 1));
        }
    }
}

/// A neat text, a colon and another neat text make a neat text.
proof fn lemma_neat_joined(front: Seq<char>, last: Seq<char>)
    requires
        neat(front),
        neat(last),
        front.len() > 0,
        last.len() > 0,
    ensures
        neat(front + seq![':'] + last),
{
    lemma_tidy_joined(front, last);
}

proof fn lemma_colon_separated(segs: Seq<u16>)
    requires
        segs.len() > 0,
    ensures
        colon_separated(segs).len() > 0,
        neat(colon_separated(segs)),
        split(colon_separated(segs), ':') == segs.map_values(|s: u16| hexadecimal(s as nat)),
    decreases segs.len(),
{
    let last = hexadecimal(segs.last() as nat);
    lemma_hexadecimal(segs.last() as nat);
    assert(neat(last)) by {
        assert forall|i: int| 0 <= i < last.len() - 1 implies !#[trigger] colons_at(last, i) by {
            assert(last[i] != ':');
        }
    }
    let texts = segs.map_values(|s: u16| hexadecimal(s as nat));
    if segs.len() == 1 {
        lemma_split_free(last, ':');
        assert(texts =~= seq![last]);
    } else {
        let front = segs.drop_last();
        lemma_colon_separated(front);
        lemma_neat_joined(colon_separated(front), last);
        lemma_split_append(colon_separated(front), ':', last);
        assert(texts =~= front.map_values(|s: u16| hexadecimal(s as nat)).push(last));
    }
}

proof fn lemma_segments_of(segs: Seq<u16>, v4: bool)
    ensures
        segments_of(segs.map_values(|s: u16| hexadecimal(s as nat)), v4) == Some(segs),
    decreases segs.len(),
{
    let texts = segs.map_values(|s: u16| hexadecimal(s as nat));
    if segs.len() == 0 {
        assert(segs =~= Seq::<u16>::empty());
    } else {
        lemma_segments_of(segs.drop_last(), false);
        assert(texts.drop_last() =~= segs.drop_last().map_values(|s: u16| hexadecimal(s as nat)));
        assert(texts.last() == hexadecimal(segs.last() as nat));
        lemma_segment(segs.last());
        assert(segs.drop_last().push(segs.last()) =~= segs);
    }
}

/// An IPv4 address is no segment.
pub proof fn lemma_dotted_is_no_segment(ip: Ipv4Addr)
    ensures
        segment(dotted(ip)) is None,
        dotted(ip).len() > 0,
        tidy(dotted(ip)),
        forall|i: int|
            0 <= i < dotted(ip).len() ==> is_digit(#[trigger] dotted(ip)[i]) || dotted(ip)[i] == '.',
{
    let text = dotted(ip);
    reveal_strlit(".");
    lemma_decimal_digits(ip.a as nat);
    lemma_decimal_digits(ip.b as nat);
    lemma_decimal_digits(ip.c as nat);
    lemma_decimal_digits(ip.d as nat);
    let ab = decimal(ip.a as nat) + "."@ + decimal(ip.b as nat);
    let abc = ab + "."@ + decimal(ip.c as nat);
    assert(text =~= abc + "."@ + decimal(ip.d as nat));
    assert(forall|i: int| 0 <= i < ab.len() ==> is_digit(#[trigger] ab[i]) || ab[i] == '.');
    assert(forall|i: int| 0 <= i < abc.len() ==> is_digit(#[trigger] abc[i]) || abc[i] == '.');
    assert(forall|i: int| 0 <= i < text.len() ==> is_digit(#[trigger] text[i]) || text[i] == '.');
    assert(text[abc.len() as int] == '.');
    if digits_value(text, 16) is Some {
        lemma_digits_are_digits(text, 16, abc.len() as int);
    }
    lemma_dotted_free(ip, ':');
    assert forall|i: int| 0 <= i < text.len() - 1 implies !#[trigger] colons_at(text, i) by {
        assert(text[i] != ':');
    }
}

/// One side of an address reads as its segments.
proof fn lemma_side(segs: Seq<u16>, v4: bool, allowed: bool)
    requires
        v4 ==> allowed && segs.len() >= 2,
    ensures
        segments(side(segs, v4), allowed) == Some(segs),
        neat(side(segs, v4)),
{
    let text = side(segs, v4);
    if v4 {
        let front = segs.take(segs.len() - 2);
        let high = segs[segs.len() - 2];
        let low = segs[segs.len() - 1];
        let ip = quad(high, low);
        let end = dotted(ip);
        law_dotted_reads_back(ip);
        lemma_dotted_is_no_segment(ip);
        lemma_dotted_free(ip, ':');
        assert(pair(ip.a, ip.b) == high && pair(ip.c, ip.d) == low);
        assert(front.push(high).push(low) =~= segs);
        let texts = front.map_values(|s: u16| hexadecimal(s as nat));
        lemma_segments_of(front, false);
        if front.len() == 0 {
            lemma_split_free(end, ':');
            assert(seq![end] =~= texts.push(end));
        } else {
            lemma_colon_separated(front);
            lemma_neat_joined(colon_separated(front), end);
            lemma_split_append(colon_separated(front), ':', end);
        }
        assert(texts.push(end).drop_last() =~= texts);
        assert(split(text, ':') == texts.push(end));
    } else if segs.len() == 0 {
        assert(segs =~= Seq::<u16>::empty());
    } else {
        lemma_colon_separated(segs);
        lemma_segments_of(segs, allowed);
    }
}

/// Where no two colons stand in a row, none are found.
pub proof fn lemma_no_double_colon(s: Seq<char>, i: int)
    requires
        0 <= i,
        forall|j: int| i <= j < s.len() - 1 ==> !#[trigger] colons_at(s, j),
    ensures
        double_colon(s, i) is None,
    decreases s.len() - i,
{
    if i + 1 < s.len() {
        assert(!colons_at(s, i));
        lemma_no_double_colon(s, i + 1);
    }
}

proof fn lemma_double_colon_at(s: Seq<char>, i: int, k: int)
    requires
        0 <= i <= k < s.len() - 1,
        forall|j: int| i <= j < k ==> !#[trigger] colons_at(s, j),
        colons_at(s, k),
    ensures
        double_colon(s, i) == Some(k),
    decreases k - i,
{
    if i < k {
        assert(!colons_at(s, i));
        lemma_double_colon_at(s, i + 1, k);
    }
}

proof fn lemma_whole_reads_back(ip: Ipv6Addr, v4: bool)
    ensures
        ipv6(side(parts(ip), v4)) == Some(ip),
{
    reveal(ipv6);
    let segs = parts(ip);
    lemma_parts(ip);
    lemma_side(segs, v4, true);
    lemma_no_double_colon(side(segs, v4), 0);
}

/// Two colons after a tidy text are the first two in a row.
pub proof fn lemma_first_double_colon(left: Seq<char>, right: Seq<char>)
    requires
        tidy(left),
    ensures
        double_colon(left + seq![':', ':'] + right, 0) == Some(left.len() as int),
        (left + seq![':', ':'] + right).take(left.len() as int) == left,
        (left + seq![':', ':'] + right).skip(left.len() as int + 2) == right,
{
    let text = left + seq![':', ':'] + right;
    let at = left.len() as int;
    assert forall|j: int| 0 <= j < at implies !#[trigger] colons_at(text, j) by {
        if j < at - 1 {
            assert(!colons_at(left, j));
        }
    }
    assert(colons_at(text, at));
    lemma_double_colon_at(text, 0, at);
    assert(text.take(at) =~= left);
    assert(text.skip(at + 2) =~= right);
}

/// The sides of the first two colons in a row, put together.
pub open spec fn filled(head: Seq<u16>, tail: Seq<u16>) -> Option<Ipv6Addr> {
    if head.len() + tail.len() <= 7 {
        Some(ipv6_of(head + Seq::new((8 - head.len() - tail.len()) as nat, |k: int| 0u16) + tail))
    } else {
        None
    }
}

/// A text with two colons in a row reads as its two sides do.
pub proof fn lemma_ipv6_at(text: Seq<char>, at: int)
    requires
        double_colon(text, 0) == Some(at),
    ensures
        ipv6(text) == match (segments(text.take(at), false), segments(text.skip(at + 2), true)) {
            (Some(head), Some(tail)) => filled(head, tail),
            _ => None,
        },
{
    reveal(ipv6);
}

/// A text without two colons in a row reads as its eight segments do.
pub proof fn lemma_ipv6_whole(text: Seq<char>)
    requires
        double_colon(text, 0) is None,
    ensures
        ipv6(text) == match segments(text, true) {
            Some(all) => if all.len() == 8 {
                Some(ipv6_of(all))
            } else {
                None
            },
            None => None,
        },
{
    reveal(ipv6);
}

/// Two sides with two colons between them read as an address, with zeros in place of the colons.
pub proof fn lemma_two_sides(left: Seq<char>, right: Seq<char>, head: Seq<u16>, tail: Seq<u16>)
    requires
        tidy(left),
        segments(left, false) == Some(head),
        segments(right, true) == Some(tail),
    ensures
        ipv6(left + seq![':', ':'] + right) == filled(head, tail),
{
    let text = left + seq![':', ':'] + right;
    lemma_first_double_colon(left, right);
    lemma_ipv6_at(text, left.len() as int);
}

proof fn lemma_short_reads_back(ip: Ipv6Addr, start: nat, len: nat, v4: bool)
    requires
        (Ipv6Form { zeros: Some((start, len)), v4 }).fits(ip),
    ensures
        ipv6((Ipv6Form { zeros: Some((start, len)), v4 }).text(ip)) == Some(ip),
{
    let segs = parts(ip);
    let head = segs.take(start as int);
    let tail = segs.skip((start + len) as int);
    lemma_parts(ip);
    lemma_side(head, false, false);
    lemma_side(tail, v4, true);
    lemma_two_sides(side(head, false), side(tail, v4), head, tail);
    let zeros = Seq::new((8 - head.len() - tail.len()) as nat, |k: int| 0u16);
    assert(head + zeros + tail =~= segs);
}

proof fn lemma_listens_at_ip(text: Seq<char>, ip: Ipv6Addr)
    requires
        ipv6(text) == Some(ip),
    ensures
        ip_addr(text) == Some(IpAddr::V6(ip)),
        listen_sockaddr(Some(text)) == Ok::<_, ListenError>(
            with_port(IpAddr::V6(ip), DEFAULT_LISTEN_PORT),
        ),
{
    law_readings_exclude_each_other(text);
}

/// However an address is written, it reads as that address.
pub proof fn law_ipv6_reads_back(ip: Ipv6Addr, form: Ipv6Form)
    requires
        form.fits(ip),
    ensures
        ipv6(form.text(ip)) == Some(ip),
        ip_addr(form.text(ip)) == Some(IpAddr::V6(ip)),
        listen_sockaddr(Some(form.text(ip))) == Ok::<_, ListenError>(
            with_port(IpAddr::V6(ip), DEFAULT_LISTEN_PORT),
        ),
{
    match form.zeros {
        None => lemma_whole_reads_back(ip, form.v4),
        Some((start, len)) => lemma_short_reads_back(ip, start, len, form.v4),
    }
    lemma_listens_at_ip(form.text(ip), ip);
}

proof fn lemma_characters(ip: Ipv6Addr, form: Ipv6Form, c: char)
    requires
        form.fits(ip),
        !is_address_character(c),
    ensures
        free_of(form.text(ip), c),
{
    let segs = parts(ip);
    match form.zeros {
        None => lemma_side(segs, form.v4, true),
        Some((start, len)) => {
            lemma_side(segs.take(start as int), false, false);
            lemma_side(segs.skip((start + len) as int), form.v4, true);
        },
    }
}

proof fn lemma_scoped_reads_back(text: Seq<char>, ip: Ipv6Addr, scope_id: u32)
    requires
        ipv6(text) == Some(ip),
        free_of(text, '%'),
        free_of(text, ']'),
    ensures
        scoped_ipv6(scoped(text, scope_id)) == Some((ip, scope_id)),
        free_of(scoped(text, scope_id), ']'),
{
    let scope = decimal(scope_id as nat);
    lemma_decimal_value(scope_id as nat);
    lemma_decimal_free(scope_id as nat, ']');
    lemma_decimal_free(scope_id as nat, '%');
    lemma_split_free(text, '%');
    lemma_split_append(text, '%', scope);
    assert(split(text, '%').push(scope) =~= seq![text, scope]);
}

proof fn lemma_brackets_split(inner: Seq<char>, port: Seq<char>)
    requires
        free_of(inner, ']'),
        free_of(port, ']'),
    ensures
        split(seq!['['] + inner + seq![']', ':'] + port, ']') == seq![
            seq!['['] + inner,
            seq![':'] + port,
        ],
{
    let host = seq!['['] + inner;
    let rest = seq![':'] + port;
    assert(free_of(host, ']'));
    assert(free_of(rest, ']'));
    lemma_split_free(host, ']');
    lemma_split_append(host, ']', rest);
    assert(seq!['['] + inner + seq![']', ':'] + port =~= host + seq![']'] + rest);
    assert(seq![host].push(rest) =~= seq![host, rest]);
}

proof fn lemma_brackets_read_back(inner: Seq<char>, addr: SocketAddrV6)
    requires
        scoped_ipv6(inner) == Some((addr.ip, addr.scope_id)),
        free_of(inner, ']'),
        addr.flowinfo == 0,
    ensures
        socket_addr_v6(seq!['['] + inner + seq![']', ':'] + decimal(addr.port as nat)) == Some(
            addr,
        ),
{
    let port = decimal(addr.port as nat);
    lemma_decimal_value(addr.port as nat);
    lemma_decimal_free(addr.port as nat, ']');
    lemma_brackets_split(inner, port);
    let host = seq!['['] + inner;
    let rest = seq![':'] + port;
    assert(host.skip(1) =~= inner);
    assert(rest.skip(1) =~= port);
    assert(number(port, 10, 0xffff) == Some(addr.port as nat));
}

proof fn lemma_in_brackets_reads_back(text: Seq<char>, addr: SocketAddrV6)
    requires
        ipv6(text) == Some(addr.ip),
        free_of(text, '%'),
        free_of(text, ']'),
        addr.flowinfo == 0,
    ensures
        socket_addr_v6(in_brackets(text, addr)) == Some(addr),
{
    lemma_scoped_reads_back(text, addr.ip, addr.scope_id);
    lemma_brackets_read_back(scoped(text, addr.scope_id), addr);
}

proof fn lemma_listens_at(text: Seq<char>, addr: SocketAddrV6)
    requires
        socket_addr_v6(text) == Some(addr),
    ensures
        socket_addr(text) == Some(SocketAddr::V6(addr)),
        listen_sockaddr(Some(text)) == Ok::<_, ListenError>(SocketAddr::V6(addr)),
{
    law_readings_exclude_each_other(text);
}

/// However an address is written, in square brackets and with its scope and port it reads as
/// that address.
pub proof fn law_bracketed_reads_back(addr: SocketAddrV6, form: Ipv6Form)
    requires
        form.fits(addr.ip),
        addr.flowinfo == 0,
    ensures
        socket_addr(bracketed(addr, form)) == Some(SocketAddr::V6(addr)),
        listen_sockaddr(Some(bracketed(addr, form))) == Ok::<_, ListenError>(SocketAddr::V6(addr)),
{
    assert(socket_addr_v6(bracketed(addr, form)) == Some(addr)) by {
        law_ipv6_reads_back(addr.ip, form);
        lemma_characters(addr.ip, form, '%');
        lemma_characters(addr.ip, form, ']');
        lemma_in_brackets_reads_back(form.text(addr.ip), addr);
    }
    lemma_listens_at(bracketed(addr, form), addr);
}

proof fn lemma_zeros_from(segs: Seq<u16>, i: int)
    requires
        0 <= i <= segs.len(),
    ensures
        i + zeros_from(segs, i) <= segs.len(),
        forall|j: int| i <= j < i + zeros_from(segs, i) ==> #[trigger] segs[j] == 0,
    decreases segs.len() - i,
{
    if i < segs.len() {
        lemma_zeros_from(segs, i + 1);
    }
}

proof fn lemma_most_zeros(segs: Seq<u16>, n: nat, i: int)
    requires
        n <= segs.len(),
    ensures
        most_zeros(segs, n) <= n,
        0 <= i < n ==> zeros_from(segs, i) <= zeros_from(segs, most_zeros(segs, n) as int),
    decreases n,
{
    if n > 0 {
        lemma_most_zeros(segs, (n - 1) as nat, i);
    }
}

/// Every address can be written in the usual way, and what two colons stand for is the longest
/// row of zeros.
pub proof fn law_the_usual_form_fits(ip: Ipv6Addr)
    ensures
        usual_form(ip).fits(ip),
        !usual_form(ip).v4 ==> forall|i: int|
            0 <= i < 8 ==> #[trigger] zeros_from(parts(ip), i) <= match usual_form(ip).zeros {
                Some((_, len)) => len,
                None => 1,
            },
{
    let segs = parts(ip);
    lemma_zeros_from(segs, 0);
    lemma_most_zeros(segs, 8, 0);
    lemma_zeros_from(segs, most_zeros(segs, 8) as int);
    assert forall|i: int| 0 <= i < 8 implies #[trigger] zeros_from(segs, i) <= zeros_from(
        segs,
        most_zeros(segs, 8) as int,
    ) by {
        lemma_most_zeros(segs, 8, i);
    }
}

/// An address in the usual way.
pub open spec fn ip_text(ip: IpAddr) -> Seq<char> {
    match ip {
        IpAddr::V4(ip) => dotted(ip),
        IpAddr::V6(ip) => ipv6_text(ip),
    }
}

/// An address with its port in the usual way.
pub open spec fn socket_text(addr: SocketAddr) -> Seq<char> {
    match addr {
        SocketAddr::V4(addr) => authority(addr),
        SocketAddr::V6(addr) => bracketed(addr, usual_form(addr.ip)),
    }
}

/// A server that is told an address with its port listens there.
pub proof fn law_listens_at_an_address_with_a_port(addr: SocketAddr)
    requires
        addr matches SocketAddr::V6(addr) ==> addr.flowinfo == 0,
    ensures
        listen_sockaddr(Some(socket_text(addr))) == Ok::<_, ListenError>(addr),
{
    match addr {
        SocketAddr::V4(addr) => law_authority_reads_back(addr),
        SocketAddr::V6(addr) => {
            law_the_usual_form_fits(addr.ip);
            law_bracketed_reads_back(addr, usual_form(addr.ip));
        },
    }
}

/// A server that is told an address alone listens there, at the default port.
pub proof fn law_listens_at_an_address_alone(ip: IpAddr)
    ensures
        listen_sockaddr(Some(ip_text(ip))) == Ok::<_, ListenError>(
            with_port(ip, DEFAULT_LISTEN_PORT),
        ),
{
    match ip {
        IpAddr::V4(ip) => {
            law_dotted_reads_back(ip);
            law_readings_exclude_each_other(dotted(ip));
        },
        IpAddr::V6(ip) => {
            law_the_usual_form_fits(ip);
            law_ipv6_reads_back(ip, usual_form(ip));
        },
    }
}

/// A server that is told a port alone listens there, at any address that the machine has.
pub proof fn law_listens_at_a_port_alone(port: u16)
    ensures
        listen_sockaddr(Some(decimal(port as nat))) == Ok::<_, ListenError>(
            with_port(default_listen_addr(), port),
        ),
{
    law_port_reads_back(port);
    law_readings_exclude_each_other(decimal(port as nat));
}

} // verus!
