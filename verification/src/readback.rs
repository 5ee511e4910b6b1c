//! What is written out can be read back, and nothing can be read in two ways.
use crate::addr::{IpAddr, Ipv4Addr, SocketAddr, SocketAddrV4};
use crate::listen::{listen_sockaddr, ListenError};
use crate::parse::{
    digit_value, digits_value, double_colon, ip_addr, ipv4, ipv6, lemma_split_some, octet, port,
    segment, segments, segments_of, socket_addr, socket_addr_v4, socket_addr_v6, split,
};
use crate::text::{decimal, digit, is_digit, lemma_decimal_digits};
use crate::uri::{authority, dotted};
use vstd::prelude::*;

verus! {

/// `c` does not occur in `s`.
pub open spec fn free_of(s: Seq<char>, c: char) -> bool {
    forall|i: int| 0 <= i < s.len() ==> #[trigger] s[i] != c
}

pub proof fn lemma_split_free(s: Seq<char>, sep: char)
    requires
        free_of(s, sep),
    ensures
        split(s, sep) == seq![s],
    decreases s.len(),
{
    if s.len() == 0 {
        assert(s =~= Seq::<char>::empty());
    } else {
        let front = s.drop_last();
        assert(free_of(front, sep)) by {
            assert forall|i: int| 0 <= i < front.len() implies #[trigger] front[i] != sep by {
                assert(s[i] != sep);
            }
        }
        lemma_split_free(front, sep);
        assert(s[s.len() - 1] != sep);
        assert(front.push(s.last()) =~= s);
        assert(split(s, sep) =~= seq![s]);
    }
}

pub proof fn lemma_split_append(s: Seq<char>, sep: char, last: Seq<char>)
    requires
        free_of(last, sep),
    ensures
        split(s + seq![sep] + last, sep) == split(s, sep).push(last),
    decreases last.len(),
{
    let all = s + seq![sep] + last;
    if last.len() == 0 {
        assert(all.drop_last() =~= s);
        assert(last =~= Seq::<char>::empty());
    } else {
        let front = last.drop_last();
        assert(free_of(front, sep)) by {
            assert forall|i: int| 0 <= i < front.len() implies #[trigger] front[i] != sep by {
                assert(last[i] != sep);
            }
        }
        lemma_split_append(s, sep, front);
        assert(all.drop_last() =~= s + seq![sep] + front);
        assert(all.last() == last[last.len() - 1]);
        let pieces = split(s, sep).push(front);
        assert(pieces.drop_last() =~= split(s, sep));
        assert(front.push(last.last()) =~= last);
    }
}

pub proof fn lemma_decimal_value(n: nat)
    ensures
        digits_value(decimal(n), 10) == Some(n),
        decimal(n).len() > 0,
        decimal(n).len() == 1 || decimal(n)[0] != '0',
        n > 0 ==> decimal(n)[0] != '0',
    decreases n,
{
    if n < 10 {
        let text = decimal(n);
        assert(text.drop_last() =~= Seq::<char>::empty());
        assert(digits_value(text.drop_last(), 10) == Some(0nat));
        assert(digit_value(digit(n), 10) == Some(n));
    } else {
        lemma_decimal_value(n / 10);
        assert(decimal(n).drop_last() =~= decimal(n / 10));
        assert(digit_value(digit(n % 10), 10) == Some(n % 10));
        assert(decimal(n)[0] == decimal(n / 10)[0]);
    }
}

pub proof fn lemma_decimal_free(n: nat, c: char)
    requires
        !is_digit(c),
    ensures
        free_of(decimal(n), c),
{
    lemma_decimal_digits(n);
}

/// An IPv4 address in dotted decimal reads as that address.
pub proof fn law_dotted_reads_back(ip: Ipv4Addr)
    ensures
        ipv4(dotted(ip)) == Some(ip),
        ip_addr(dotted(ip)) == Some(IpAddr::V4(ip)),
{
    reveal_strlit(".");
    let a = decimal(ip.a as nat);
    let b = decimal(ip.b as nat);
    let c = decimal(ip.c as nat);
    let d = decimal(ip.d as nat);
    lemma_decimal_free(ip.a as nat, '.');
    lemma_decimal_free(ip.b as nat, '.');
    lemma_decimal_free(ip.c as nat, '.');
    lemma_decimal_free(ip.d as nat, '.');
    lemma_decimal_value(ip.a as nat);
    lemma_decimal_value(ip.b as nat);
    lemma_decimal_value(ip.c as nat);
    lemma_decimal_value(ip.d as nat);
    assert("."@ =~= seq!['.']);
    lemma_split_free(a, '.');
    lemma_split_append(a, '.', b);
    lemma_split_append(a + seq!['.'] + b, '.', c);
    lemma_split_append(a + seq!['.'] + b + seq!['.'] + c, '.', d);
    assert(split(dotted(ip), '.') =~= seq![a, b, c, d]);
}

pub proof fn lemma_dotted_free(ip: Ipv4Addr, sep: char)
    requires
        !is_digit(sep),
        sep != '.',
    ensures
        free_of(dotted(ip), sep),
{
    reveal_strlit(".");
    lemma_decimal_free(ip.a as nat, sep);
    lemma_decimal_free(ip.b as nat, sep);
    lemma_decimal_free(ip.c as nat, sep);
    lemma_decimal_free(ip.d as nat, sep);
    let ab = decimal(ip.a as nat) + "."@ + decimal(ip.b as nat);
    let abc = ab + "."@ + decimal(ip.c as nat);
    assert(free_of(ab, sep));
    assert(free_of(abc, sep));
}

/// The authority of a URI reads as the address it was made from, so a server that is told to
/// listen at the authority of a URI listens where that URI leads.
pub proof fn law_authority_reads_back(addr: SocketAddrV4)
    ensures
        socket_addr(authority(addr)) == Some(SocketAddr::V4(addr)),
        listen_sockaddr(Some(authority(addr))) == Ok::<_, ListenError>(SocketAddr::V4(addr)),
{
    reveal_strlit(":");
    let host = dotted(addr.ip);
    let port = decimal(addr.port as nat);
    assert(":"@ =~= seq![':']);
    law_dotted_reads_back(addr.ip);
    lemma_dotted_free(addr.ip, ':');
    lemma_decimal_free(addr.port as nat, ':');
    lemma_decimal_value(addr.port as nat);
    lemma_split_free(host, ':');
    lemma_split_append(host, ':', port);
    assert(split(authority(addr), ':') =~= seq![host, port]);
}

/// A port in decimal reads as that port.
pub proof fn law_port_reads_back(n: u16)
    ensures
        port(decimal(n as nat)) == Some(n),
{
    lemma_decimal_value(n as nat);
    lemma_decimal_free(n as nat, '+');
}

/// Two separators make three pieces, at least.
proof fn lemma_split_len(s: Seq<char>, sep: char, i: int, j: int)
    requires
        0 <= i < j < s.len(),
        s[i] == sep,
        s[j] == sep,
    ensures
        split(s, sep).len() >= 3,
    decreases s.len(),
{
    let front = s.drop_last();
    if j < front.len() {
        lemma_split_len(front, sep, i, j);
        assert(front[i] == sep && front[j] == sep);
    } else {
        lemma_split_one(front, sep, i);
    }
}

/// A separator makes two pieces, at least.
proof fn lemma_split_one(s: Seq<char>, sep: char, i: int)
    requires
        0 <= i < s.len(),
        s[i] == sep,
    ensures
        split(s, sep).len() >= 2,
    decreases s.len(),
{
    let front = s.drop_last();
    lemma_split_some(front, sep);
    if i < front.len() {
        lemma_split_one(front, sep, i);
    }
}

/// The pieces hold every character but the separators.
proof fn lemma_split_keeps(s: Seq<char>, sep: char, i: int)
    requires
        0 <= i < s.len(),
        s[i] != sep,
    ensures
        exists|k: int, j: int|
            0 <= k < split(s, sep).len() && 0 <= j < split(s, sep)[k].len() && split(s, sep)[k][j]
                == s[i],
    decreases s.len(),
{
    let front = s.drop_last();
    let pieces = split(front, sep);
    let all = split(s, sep);
    lemma_split_some(front, sep);
    if i < front.len() {
        lemma_split_keeps(front, sep, i);
        let (k, j) = choose|k: int, j: int|
            0 <= k < pieces.len() && 0 <= j < pieces[k].len() && pieces[k][j] == front[i];
        assert(all[k][j] == s[i]);
    } else {
        let k = pieces.len() - 1;
        let j = pieces.last().len() as int;
        assert(all[k][j] == s[i]);
    }
}

/// The first piece starts as the text does.
proof fn lemma_split_first(s: Seq<char>, sep: char)
    requires
        s.len() > 0,
        s[0] != sep,
    ensures
        split(s, sep)[0].len() > 0,
        split(s, sep)[0][0] == s[0],
    decreases s.len(),
{
    let front = s.drop_last();
    lemma_split_some(front, sep);
    if front.len() > 0 {
        lemma_split_first(front, sep);
    }
}

/// A text that starts with the separator has an empty first piece.
proof fn lemma_split_empty_first(s: Seq<char>, sep: char)
    requires
        s.len() > 0,
        s[0] == sep,
    ensures
        split(s, sep)[0].len() == 0,
        split(s, sep).len() >= 2,
    decreases s.len(),
{
    let front = s.drop_last();
    lemma_split_some(front, sep);
    if front.len() > 0 {
        lemma_split_empty_first(front, sep);
    }
}

pub proof fn lemma_digits_are_digits(s: Seq<char>, radix: nat, i: int)
    requires
        digits_value(s, radix) is Some,
        0 <= i < s.len(),
    ensures
        digit_value(s[i], radix) is Some,
    decreases s.len(),
{
    if i < s.len() - 1 {
        lemma_digits_are_digits(s.drop_last(), radix, i);
    }
}

/// An IPv4 address holds digits and dots only.
proof fn lemma_ipv4_characters(s: Seq<char>, i: int)
    requires
        ipv4(s) is Some,
        0 <= i < s.len(),
    ensures
        is_digit(s[i]) || s[i] == '.',
{
    if s[i] != '.' {
        lemma_split_keeps(s, '.', i);
        let parts = split(s, '.');
        let (k, j) = choose|k: int, j: int|
            0 <= k < parts.len() && 0 <= j < parts[k].len() && parts[k][j] == s[i];
        assert(octet(parts[k]) is Some) by {
            assert(k == 0 || k == 1 || k == 2 || k == 3);
        }
        lemma_digits_are_digits(parts[k], 10, j);
    }
}

proof fn lemma_segments_len(parts: Seq<Seq<char>>, v4: bool)
    requires
        segments_of(parts, v4) is Some,
    ensures
        segments_of(parts, v4)->0.len() <= parts.len() + 1,
        !v4 ==> segments_of(parts, v4)->0.len() <= parts.len(),
    decreases parts.len(),
{
    if parts.len() > 0 {
        lemma_segments_len(parts.drop_last(), false);
    }
}

/// Each part of an IPv6 address is a segment or an IPv4 address.
proof fn lemma_segments_parts(parts: Seq<Seq<char>>, v4: bool, k: int)
    requires
        segments_of(parts, v4) is Some,
        0 <= k < parts.len(),
    ensures
        segment(parts[k]) is Some || ipv4(parts[k]) is Some,
    decreases parts.len(),
{
    if k < parts.len() - 1 {
        lemma_segments_parts(parts.drop_last(), false, k);
    }
}

/// Where two colons are found, they stand.
pub proof fn lemma_double_colon(s: Seq<char>, i: int)
    requires
        0 <= i,
        double_colon(s, i) is Some,
    ensures
        i <= double_colon(s, i)->0 < s.len() - 1,
        s[double_colon(s, i)->0] == ':',
        s[double_colon(s, i)->0 + 1] == ':',
    decreases s.len() - i,
{
    if i + 1 < s.len() && !(s[i] == ':' && s[i + 1] == ':') {
        lemma_double_colon(s, i + 1);
    }
}

/// An IPv6 address has at least two colons.
proof fn lemma_ipv6_colons(s: Seq<char>)
    requires
        ipv6(s) is Some,
    ensures
        split(s, ':').len() >= 3,
{
    reveal(ipv6);
    match double_colon(s, 0) {
        Some(i) => {
            lemma_double_colon(s, 0);
            lemma_split_len(s, ':', i, i + 1);
        },
        None => {
            lemma_segments_len(split(s, ':'), true);
        },
    }
}

/// Neither side of an IPv6 address starts with a square bracket.
proof fn lemma_segments_start(s: Seq<char>, v4: bool)
    requires
        segments(s, v4) is Some,
        s.len() > 0,
    ensures
        s[0] != '[',
{
    if s[0] == '[' {
        lemma_split_first(s, ':');
        lemma_split_some(s, ':');
        let first = split(s, ':')[0];
        lemma_segments_parts(split(s, ':'), v4, 0);
        if segment(first) is Some {
            lemma_digits_are_digits(first, 16, 0);
        } else {
            lemma_ipv4_characters(first, 0);
        }
    }
}

proof fn lemma_ip_start(s: Seq<char>)
    requires
        ip_addr(s) is Some,
        s.len() > 0,
    ensures
        s[0] != '[',
{
    reveal(ipv6);
    if ipv4(s) is Some {
        lemma_ipv4_characters(s, 0);
    } else {
        match double_colon(s, 0) {
            Some(i) => {
                lemma_double_colon(s, 0);
                if i > 0 {
                    lemma_segments_start(s.take(i), false);
                    assert(s.take(i)[0] == s[0]);
                }
            },
            None => lemma_segments_start(s, true),
        }
    }
}

proof fn lemma_ipv4_no_colon(s: Seq<char>)
    requires
        ipv4(s) is Some,
    ensures
        split(s, ':').len() == 1,
{
    assert(free_of(s, ':')) by {
        assert forall|i: int| 0 <= i < s.len() implies #[trigger] s[i] != ':' by {
            lemma_ipv4_characters(s, i);
        }
    }
    lemma_split_free(s, ':');
}

/// A port holds digits only, after its sign.
proof fn lemma_port_free(s: Seq<char>, c: char)
    requires
        port(s) is Some,
        !is_digit(c),
        c != '+',
    ensures
        free_of(s, c),
{
    let digits = if s.len() > 0 && s[0] == '+' {
        s.skip(1)
    } else {
        s
    };
    assert forall|i: int| 0 <= i < s.len() implies #[trigger] s[i] != c by {
        if s[0] == '+' {
            if i > 0 {
                lemma_digits_are_digits(digits, 10, i - 1);
            }
        } else {
            lemma_digits_are_digits(digits, 10, i);
        }
    }
}

/// No text can be read in two ways, so it does not matter which is tried first: what is an
/// address with a port is no address alone, and what is either is no port.
pub proof fn law_readings_exclude_each_other(s: Seq<char>)
    ensures
        socket_addr(s) is Some ==> ip_addr(s) is None,
        port(s) is Some ==> socket_addr(s) is None && ip_addr(s) is None,
        ipv4(s) is Some ==> ipv6(s) is None,
        socket_addr_v4(s) is Some ==> socket_addr_v6(s) is None,
{
    if ipv4(s) is Some {
        lemma_ipv4_no_colon(s);
    }
    if ipv6(s) is Some {
        lemma_ipv6_colons(s);
    }
    if socket_addr_v6(s) is Some {
        let parts = split(s, ']');
        if s[0] == ']' {
            lemma_split_empty_first(s, ']');
        }
        assert(s.len() > 0);
        lemma_split_first(s, ']');
        assert(s[0] == '[');
        if ip_addr(s) is Some {
            lemma_ip_start(s);
        }
        if socket_addr_v4(s) is Some {
            let host = split(s, ':')[0];
            lemma_split_first(s, ':');
            lemma_ipv4_characters(host, 0);
        }
    }
    if port(s) is Some {
        lemma_port_free(s, ':');
        lemma_port_free(s, '.');
        lemma_port_free(s, ']');
        lemma_split_free(s, ':');
        lemma_split_free(s, '.');
        lemma_split_free(s, ']');
    }
}

/// One side of an IPv6 address holds hexadecimal digits, colons and dots only.
pub proof fn lemma_side_characters(s: Seq<char>, v4: bool, i: int)
    requires
        segments(s, v4) is Some,
        0 <= i < s.len(),
    ensures
        s[i] == ':' || s[i] == '.' || digit_value(s[i], 16) is Some,
{
    if s[i] != ':' {
        lemma_split_keeps(s, ':', i);
        let parts = split(s, ':');
        let (k, j) = choose|k: int, j: int|
            0 <= k < parts.len() && 0 <= j < parts[k].len() && parts[k][j] == s[i];
        lemma_segments_parts(parts, v4, k);
        if segment(parts[k]) is Some {
            lemma_digits_are_digits(parts[k], 16, j);
        } else {
            lemma_ipv4_characters(parts[k], j);
        }
    }
}

} // verus!
