//! Which texts are IPv6 addresses, and which: the readers accept these texts and no others.
use crate::addr::{IpAddr, Ipv4Addr, Ipv6Addr, SocketAddr, SocketAddrV4, SocketAddrV6};
use crate::grammar::{
    joined, law_decimal_numbers_are_read, law_hexadecimal_numbers_are_read,
    law_ipv4_addresses_are_read, law_the_pieces_make_the_text, law_the_text_gives_the_pieces,
    lemma_spelled_free, spells, spells_hexadecimal,
};
use crate::ipv6::{
    filled, lemma_dotted_is_no_segment, lemma_ipv6_at, lemma_ipv6_whole,
    lemma_no_double_colon, lemma_parts, lemma_tidy_joined, lemma_two_sides, parts, tidy,
};
use crate::listen::{listen_sockaddr, ListenError};
use crate::parse::{
    digit_value, digits_value, double_colon, ip_addr, ipv4, ipv6, ipv6_of, number, pair, port,
    scoped_ipv6, segment, segments, segments_of, socket_addr, socket_addr_v4, socket_addr_v6, split,
};
use crate::readback::{
    free_of, law_dotted_reads_back, law_readings_exclude_each_other, lemma_digits_are_digits,
    lemma_dotted_free, lemma_double_colon, lemma_side_characters, lemma_split_append,
    lemma_split_free,
};
use crate::uri::dotted;
use vstd::prelude::*;

verus! {

/// Up to four hexadecimal digits of this value.
pub open spec fn group(p: Seq<char>, v: u16) -> bool {
    p.len() <= 4 && spells_hexadecimal(p, v as nat)
}

/// As many groups, of these values.
pub open spec fn groups(pieces: Seq<Seq<char>>, values: Seq<u16>) -> bool {
    &&& pieces.len() == values.len()
    &&& forall|i: int| 0 <= i < pieces.len() ==> group(#[trigger] pieces[i], values[i])
}

/// Groups of all these values but the last two, and an IPv4 address for those.
pub open spec fn groups_and_ipv4(
    pieces: Seq<Seq<char>>,
    ip: Ipv4Addr,
    values: Seq<u16>,
) -> bool {
    &&& values.len() == pieces.len() + 2
    &&& groups(pieces, values.take(pieces.len() as int))
    &&& values[pieces.len() as int] == ip.a * 256 + ip.b
    &&& values[pieces.len() as int + 1] == ip.c * 256 + ip.d
}

/// One side of an address: nothing, or groups with colons between them. If `v4` says so, an IPv4
/// address may stand at the end in place of two groups.
pub open spec fn reads_as(s: Seq<char>, values: Seq<u16>, v4: bool) -> bool {
    ||| s.len() == 0 && values.len() == 0
    ||| values.len() > 0 && exists|pieces: Seq<Seq<char>>| #[trigger]
        groups(pieces, values) && s == joined(pieces, ':')
    ||| v4 && exists|pieces: Seq<Seq<char>>, ip: Ipv4Addr| #[trigger]
        groups_and_ipv4(pieces, ip, values) && s == joined(pieces.push(dotted(ip)), ':')
}

/// Two sides with two colons between them, which stand for one or more zeros.
pub open spec fn shortened(
    s: Seq<char>,
    left: Seq<char>,
    right: Seq<char>,
    head: Seq<u16>,
    tail: Seq<u16>,
    values: Seq<u16>,
) -> bool {
    &&& s == left + seq![':', ':'] + right
    &&& reads_as(left, head, false)
    &&& reads_as(right, tail, true)
    &&& head.len() + tail.len() < 8
    &&& values == head + Seq::new((8 - head.len() - tail.len()) as nat, |k: int| 0u16) + tail
}

/// A segment is read from exactly the groups of its value.
pub proof fn law_segments_are_read(p: Seq<char>, v: u16)
    ensures
        segment(p) == Some(v) <==> p.len() <= 4 && spells_hexadecimal(p, v as nat),
{
    law_hexadecimal_numbers_are_read(p, v as nat, 0xffff);
    if number(p, 16, 0xffff) is Some {
        law_hexadecimal_numbers_are_read(p, number(p, 16, 0xffff)->0, 0xffff);
    }
}

proof fn lemma_group_free(p: Seq<char>, v: u16, c: char)
    requires
        group(p, v),
        digit_value(c, 16) is None,
    ensures
        free_of(p, c),
        p.len() > 0,
{
    law_segments_are_read(p, v);
    assert(segment(p) == Some(v));
    assert(digits_value(p, 16) is Some);
    assert forall|i: int| 0 <= i < p.len() implies #[trigger] p[i] != c by {
        lemma_digits_are_digits(p, 16, i);
    }
}

proof fn lemma_groups(pieces: Seq<Seq<char>>, values: Seq<u16>)
    ensures
        segments_of(pieces, false) == Some(values) <==> groups(pieces, values),
    decreases pieces.len(),
{
    if pieces.len() == 0 {
        if values.len() == 0 {
            assert(values =~= Seq::<u16>::empty());
        }
    } else {
        let front = pieces.drop_last();
        if segments_of(pieces, false) == Some(values) {
            let v = segment(pieces.last())->0;
            let before = segments_of(front, false)->0;
            lemma_groups(front, before);
            law_segments_are_read(pieces.last(), v);
            assert(values == before.push(v));
            assert forall|i: int| 0 <= i < pieces.len() implies group(
                #[trigger] pieces[i],
                values[i],
            ) by {
                if i < front.len() {
                    assert(group(front[i], before[i]));
                }
            }
        }
        if groups(pieces, values) {
            let before = values.drop_last();
            assert(groups(front, before)) by {
                assert forall|i: int| 0 <= i < front.len() implies group(
                    #[trigger] front[i],
                    before[i],
                ) by {
                    assert(group(pieces[i], values[i]));
                }
            }
            lemma_groups(front, before);
            assert(group(pieces[pieces.len() - 1], values[pieces.len() - 1]));
            law_segments_are_read(pieces.last(), values.last());
            assert(before.push(values.last()) =~= values);
        }
    }
}

/// With an IPv4 address at the end.
proof fn lemma_groups_and_ipv4(pieces: Seq<Seq<char>>, ip: Ipv4Addr, values: Seq<u16>)
    requires
        groups_and_ipv4(pieces, ip, values),
    ensures
        segments_of(pieces.push(dotted(ip)), true) == Some(values),
{
    let before = values.take(pieces.len() as int);
    let all = pieces.push(dotted(ip));
    lemma_groups(pieces, before);
    assert(all.drop_last() =~= pieces);
    lemma_dotted_is_no_segment(ip);
    law_dotted_reads_back(ip);
    assert(before.push(pair(ip.a, ip.b)).push(pair(ip.c, ip.d)) =~= values);
}

proof fn lemma_read_groups(pieces: Seq<Seq<char>>, values: Seq<u16>, v4: bool)
    requires
        pieces.len() > 0,
        segments_of(pieces, v4) == Some(values),
    ensures
        groups(pieces, values) || (v4 && exists|ip: Ipv4Addr| #[trigger]
            groups_and_ipv4(pieces.drop_last(), ip, values) && pieces == pieces.drop_last().push(
                dotted(ip),
            )),
{
    let front = pieces.drop_last();
    let before = segments_of(front, false)->0;
    lemma_groups(front, before);
    if segment(pieces.last()) is Some {
        lemma_groups(pieces, values);
    } else {
        let ip = ipv4(pieces.last())->0;
        law_ipv4_addresses_are_read(pieces.last(), ip);
        reveal_strlit(".");
        assert(dotted(ip) =~= pieces.last());
        assert(values == before.push(pair(ip.a, ip.b)).push(pair(ip.c, ip.d)));
        assert(values.take(front.len() as int) =~= before);
        assert(groups_and_ipv4(front, ip, values));
        assert(pieces =~= front.push(dotted(ip)));
    }
}

proof fn lemma_joined_tidy(pieces: Seq<Seq<char>>)
    requires
        pieces.len() > 0,
        forall|i: int| 0 <= i < pieces.len() ==> free_of(#[trigger] pieces[i], ':'),
        forall|i: int| 0 <= i < pieces.len() ==> (#[trigger] pieces[i]).len() > 0,
    ensures
        tidy(joined(pieces, ':')),
        joined(pieces, ':').len() > 0,
    decreases pieces.len(),
{
    let last = pieces[pieces.len() - 1];
    assert(free_of(last, ':') && last.len() > 0);
    assert(tidy(last)) by {
        assert forall|i: int| 0 <= i < last.len() - 1 implies !#[trigger] crate::ipv6::colons_at(
            last,
            i,
        ) by {
            assert(last[i] != ':');
        }
        assert(last[0] != ':' && last[last.len() - 1] != ':');
    }
    if pieces.len() > 1 {
        let front = pieces.drop_last();
        assert forall|i: int| 0 <= i < front.len() implies free_of(#[trigger] front[i], ':')
            && front[i].len() > 0 by {
            assert(free_of(pieces[i], ':') && pieces[i].len() > 0);
        }
        lemma_joined_tidy(front);
        lemma_tidy_joined(joined(front, ':'), last);
    }
}

/// What the pieces of one side come to.
proof fn lemma_side_of_pieces(pieces: Seq<Seq<char>>, values: Seq<u16>, v4: bool)
    requires
        pieces.len() > 0,
        segments_of(pieces, v4) == Some(values),
        forall|i: int| 0 <= i < pieces.len() ==> free_of(#[trigger] pieces[i], ':'),
        forall|i: int| 0 <= i < pieces.len() ==> (#[trigger] pieces[i]).len() > 0,
    ensures
        segments(joined(pieces, ':'), v4) == Some(values),
        tidy(joined(pieces, ':')),
{
    lemma_joined_tidy(pieces);
    law_the_text_gives_the_pieces(pieces, ':');
}

proof fn lemma_reads(s: Seq<char>, values: Seq<u16>, v4: bool)
    requires
        reads_as(s, values, v4),
    ensures
        segments(s, v4) == Some(values),
        tidy(s),
{
    if s.len() == 0 && values.len() == 0 {
        assert(values =~= Seq::<u16>::empty());
    } else if values.len() > 0 && exists|pieces: Seq<Seq<char>>| #[trigger]
        groups(pieces, values) && s == joined(pieces, ':') {
        let pieces = choose|pieces: Seq<Seq<char>>| #[trigger]
            groups(pieces, values) && s == joined(pieces, ':');
        assert forall|i: int| 0 <= i < pieces.len() implies free_of(#[trigger] pieces[i], ':')
            && pieces[i].len() > 0 by {
            lemma_group_free(pieces[i], values[i], ':');
        }
        lemma_groups_either_way(pieces, values, v4);
        lemma_side_of_pieces(pieces, values, v4);
    } else {
        let (pieces, ip) = choose|pieces: Seq<Seq<char>>, ip: Ipv4Addr| #[trigger]
            groups_and_ipv4(pieces, ip, values) && s == joined(pieces.push(dotted(ip)), ':');
        let all = pieces.push(dotted(ip));
        lemma_groups_and_ipv4(pieces, ip, values);
        assert forall|i: int| 0 <= i < all.len() implies free_of(#[trigger] all[i], ':')
            && all[i].len() > 0 by {
            if i < pieces.len() {
                assert(group(pieces[i], values.take(pieces.len() as int)[i]));
                lemma_group_free(pieces[i], values[i], ':');
            } else {
                lemma_dotted_free(ip, ':');
                lemma_dotted_is_no_segment(ip);
            }
        }
        lemma_side_of_pieces(all, values, true);
    }
}

proof fn lemma_groups_either_way(pieces: Seq<Seq<char>>, values: Seq<u16>, v4: bool)
    requires
        groups(pieces, values),
        pieces.len() > 0,
    ensures
        segments_of(pieces, v4) == Some(values),
{
    lemma_groups(pieces, values);
    assert(group(pieces[pieces.len() - 1], values[pieces.len() - 1]));
    law_segments_are_read(pieces.last(), values.last());
}

/// One side of an address is read from exactly such texts.
pub proof fn law_sides_are_read(s: Seq<char>, values: Seq<u16>, v4: bool)
    ensures
        segments(s, v4) == Some(values) <==> reads_as(s, values, v4),
{
    if segments(s, v4) == Some(values) && s.len() > 0 {
        let pieces = split(s, ':');
        law_the_pieces_make_the_text(s, ':');
        lemma_read_groups(pieces, values, v4);
        if !groups(pieces, values) {
            let ip = choose|ip: Ipv4Addr| #[trigger]
                groups_and_ipv4(pieces.drop_last(), ip, values) && pieces
                    == pieces.drop_last().push(dotted(ip));
            assert(groups_and_ipv4(pieces.drop_last(), ip, values));
        }
    }
    if reads_as(s, values, v4) {
        lemma_reads(s, values, v4);
    }
}

proof fn lemma_parts_of(all: Seq<u16>)
    requires
        all.len() == 8,
    ensures
        parts(ipv6_of(all)) == all,
{
    let bits = ipv6_of(all).bits;
    let (a, b, c, d) = (all[0], all[1], all[2], all[3]);
    let (e, f, g, h) = (all[4], all[5], all[6], all[7]);
    assert(({
        let bits = ((a as u128) << 112) | ((b as u128) << 96) | ((c as u128) << 80) | ((d as u128)
            << 64) | ((e as u128) << 48) | ((f as u128) << 32) | ((g as u128) << 16) | (h as u128);
        &&& (bits >> 112) & 0xffff == a
        &&& (bits >> 96) & 0xffff == b
        &&& (bits >> 80) & 0xffff == c
        &&& (bits >> 64) & 0xffff == d
        &&& (bits >> 48) & 0xffff == e
        &&& (bits >> 32) & 0xffff == f
        &&& (bits >> 16) & 0xffff == g
        &&& (bits >> 0) & 0xffff == h
    })) by (bit_vector);
    let p = parts(ipv6_of(all));
    assert(p[0] == a && p[1] == b && p[2] == c && p[3] == d);
    assert(p[4] == e && p[5] == f && p[6] == g && p[7] == h);
    assert(p =~= all);
}

/// The text is an IPv6 address: eight groups, or fewer and two colons for the zeros.
pub open spec fn is_ipv6(s: Seq<char>, ip: Ipv6Addr) -> bool {
    ||| reads_as(s, parts(ip), true)
    ||| exists|left: Seq<char>, right: Seq<char>, head: Seq<u16>, tail: Seq<u16>| #[trigger]
        shortened(s, left, right, head, tail, parts(ip))
}

#[verifier::rlimit(40)]
proof fn lemma_whole_is(s: Seq<char>, all: Seq<u16>)
    requires
        segments(s, true) == Some(all),
        all.len() == 8,
    ensures
        is_ipv6(s, ipv6_of(all)),
{
    law_sides_are_read(s, all, true);
    lemma_parts_of(all);
}

#[verifier::rlimit(40)]
proof fn lemma_short_is(left: Seq<char>, right: Seq<char>, head: Seq<u16>, tail: Seq<u16>)
    requires
        segments(left, false) == Some(head),
        segments(right, true) == Some(tail),
        head.len() + tail.len() <= 7,
    ensures
        is_ipv6(left + seq![':', ':'] + right, filled(head, tail)->0),
{
    let s = left + seq![':', ':'] + right;
    let ip = filled(head, tail)->0;
    assert(reads_as(left, head, false)) by {
        law_sides_are_read(left, head, false);
    }
    assert(reads_as(right, tail, true)) by {
        law_sides_are_read(right, tail, true);
    }
    lemma_parts_of(head + Seq::new((8 - head.len() - tail.len()) as nat, |k: int| 0u16) + tail);
    assert(shortened(s, left, right, head, tail, parts(ip)));
}

#[verifier::rlimit(40)]
proof fn lemma_ipv6_is(s: Seq<char>, ip: Ipv6Addr)
    requires
        ipv6(s) == Some(ip),
    ensures
        is_ipv6(s, ip),
{
    match double_colon(s, 0) {
        None => {
            lemma_ipv6_whole(s);
            lemma_whole_is(s, segments(s, true)->0);
        },
        Some(at) => {
            lemma_double_colon(s, 0);
            lemma_ipv6_at(s, at);
            let left = s.take(at);
            let right = s.skip(at + 2);
            lemma_short_is(left, right, segments(left, false)->0, segments(right, true)->0);
            assert(s =~= left + seq![':', ':'] + right);
        },
    }
}

proof fn lemma_is_ipv6(s: Seq<char>, ip: Ipv6Addr)
    requires
        is_ipv6(s, ip),
    ensures
        ipv6(s) == Some(ip),
{
    lemma_parts(ip);
    if reads_as(s, parts(ip), true) {
        lemma_reads(s, parts(ip), true);
        lemma_no_double_colon(s, 0);
        lemma_ipv6_whole(s);
    } else {
        let (left, right, head, tail) = choose|
            left: Seq<char>,
            right: Seq<char>,
            head: Seq<u16>,
            tail: Seq<u16>,
        | #[trigger]
            shortened(s, left, right, head, tail, parts(ip));
        lemma_reads(left, head, false);
        lemma_reads(right, tail, true);
        lemma_two_sides(left, right, head, tail);
    }
}

/// An IPv6 address is read from exactly such texts.
pub proof fn law_ipv6_addresses_are_read(s: Seq<char>, ip: Ipv6Addr)
    ensures
        ipv6(s) == Some(ip) <==> is_ipv6(s, ip),
{
    if ipv6(s) == Some(ip) {
        lemma_ipv6_is(s, ip);
    }
    if is_ipv6(s, ip) {
        lemma_is_ipv6(s, ip);
    }
}

/// The segments of an address are its bits, sixteen at a time from the highest.
pub proof fn law_segments_are_the_bits(ip: Ipv6Addr, i: int)
    requires
        0 <= i < 8,
    ensures
        parts(ip).len() == 8,
        parts(ip)[i] as u128 == (ip.bits >> ((112 - 16 * i) as u128)) & 0xffff,
{
    let b = ip.bits;
    let shift = (112 - 16 * i) as u128;
    assert((b >> shift) & 0xffff <= 0xffff) by (bit_vector);
}

#[verifier::rlimit(40)]
proof fn lemma_ipv6_free(s: Seq<char>, c: char)
    requires
        ipv6(s) is Some,
        c != ':' && c != '.',
        digit_value(c, 16) is None,
    ensures
        free_of(s, c),
{
    assert forall|i: int| 0 <= i < s.len() implies #[trigger] s[i] != c by {
        match double_colon(s, 0) {
            None => {
                lemma_ipv6_whole(s);
                lemma_side_characters(s, true, i);
            },
            Some(at) => {
                lemma_double_colon(s, 0);
                lemma_ipv6_at(s, at);
                if i < at {
                    lemma_side_characters(s.take(at), false, i);
                    assert(s.take(at)[i] == s[i]);
                } else if i > at + 1 {
                    lemma_side_characters(s.skip(at + 2), true, i - at - 2);
                    assert(s.skip(at + 2)[i - at - 2] == s[i]);
                }
            },
        }
    }
}

/// A text, a percent sign and another text.
pub open spec fn with_scope(s: Seq<char>, address: Seq<char>, scope: Seq<char>) -> bool {
    s == address + seq!['%'] + scope
}

/// An address with a scope is read from the text of the address alone, which stands for scope
/// zero, or from that, a percent sign and any text that spells the scope; and from nothing else.
pub proof fn law_scoped_addresses_are_read(s: Seq<char>, ip: Ipv6Addr, scope_id: u32)
    ensures
        scoped_ipv6(s) == Some((ip, scope_id)) <==> (ipv6(s) == Some(ip) && scope_id == 0) || exists|
            t: Seq<char>,
            p: Seq<char>,
        | #[trigger]
            with_scope(s, t, p) && ipv6(t) == Some(ip) && spells(p, scope_id as nat),
{
    let pieces = split(s, '%');
    if scoped_ipv6(s) == Some((ip, scope_id)) && pieces.len() == 2 {
        law_the_pieces_make_the_text(s, '%');
        law_decimal_numbers_are_read(pieces[1], scope_id as nat, 0xffff_ffff);
        reveal_with_fuel(joined, 3);
        assert(pieces.drop_last()[0] == pieces[0]);
        assert(with_scope(s, pieces[0], pieces[1]));
    }
    if ipv6(s) == Some(ip) && scope_id == 0 {
        lemma_ipv6_free(s, '%');
        lemma_split_free(s, '%');
    }
    if exists|t: Seq<char>, p: Seq<char>| #[trigger]
        with_scope(s, t, p) && ipv6(t) == Some(ip) && spells(p, scope_id as nat) {
        let (t, p) = choose|t: Seq<char>, p: Seq<char>| #[trigger]
            with_scope(s, t, p) && ipv6(t) == Some(ip) && spells(p, scope_id as nat);
        lemma_ipv6_free(t, '%');
        lemma_spelled_free(p, scope_id as nat, '%');
        lemma_split_free(t, '%');
        lemma_split_append(t, '%', p);
        assert(pieces =~= seq![t, p]);
        law_decimal_numbers_are_read(p, scope_id as nat, 0xffff_ffff);
    }
}

proof fn lemma_scoped_free(s: Seq<char>, ip: Ipv6Addr, scope_id: u32)
    requires
        scoped_ipv6(s) == Some((ip, scope_id)),
    ensures
        free_of(s, ']'),
{
    law_scoped_addresses_are_read(s, ip, scope_id);
    if ipv6(s) == Some(ip) && scope_id == 0 {
        lemma_ipv6_free(s, ']');
    } else {
        let (t, p) = choose|t: Seq<char>, p: Seq<char>| #[trigger]
            with_scope(s, t, p) && ipv6(t) == Some(ip) && spells(p, scope_id as nat);
        lemma_ipv6_free(t, ']');
        lemma_spelled_free(p, scope_id as nat, ']');
    }
}

/// A text in square brackets, a colon and another text.
pub open spec fn in_square_brackets(s: Seq<char>, inner: Seq<char>, port: Seq<char>) -> bool {
    s == seq!['['] + inner + seq![']', ':'] + port
}

proof fn lemma_square_brackets(s: Seq<char>, inner: Seq<char>, p: Seq<char>)
    requires
        in_square_brackets(s, inner, p),
        free_of(inner, ']'),
        free_of(p, ']'),
    ensures
        split(s, ']') == seq![seq!['['] + inner, seq![':'] + p],
{
    let host = seq!['['] + inner;
    let rest = seq![':'] + p;
    assert(free_of(host, ']'));
    assert(free_of(rest, ']'));
    lemma_split_free(host, ']');
    lemma_split_append(host, ']', rest);
    assert(s =~= host + seq![']'] + rest);
    assert(seq![host].push(rest) =~= seq![host, rest]);
}

proof fn lemma_bracketed_is(s: Seq<char>, addr: SocketAddrV6)
    requires
        socket_addr_v6(s) == Some(addr),
    ensures
        addr.flowinfo == 0,
        exists|inner: Seq<char>, p: Seq<char>| #[trigger]
            in_square_brackets(s, inner, p) && scoped_ipv6(inner) == Some((addr.ip, addr.scope_id))
                && spells(p, addr.port as nat),
{
    let pieces = split(s, ']');
    let inner = pieces[0].skip(1);
    let p = pieces[1].skip(1);
    law_the_pieces_make_the_text(s, ']');
    law_decimal_numbers_are_read(p, addr.port as nat, 0xffff);
    reveal_with_fuel(joined, 3);
    assert(pieces.drop_last()[0] == pieces[0]);
    assert(pieces[0] =~= seq!['['] + inner);
    assert(pieces[1] =~= seq![':'] + p);
    assert(s =~= seq!['['] + inner + seq![']', ':'] + p);
    assert(in_square_brackets(s, inner, p));
}

proof fn lemma_is_bracketed(s: Seq<char>, addr: SocketAddrV6, inner: Seq<char>, p: Seq<char>)
    requires
        addr.flowinfo == 0,
        in_square_brackets(s, inner, p),
        scoped_ipv6(inner) == Some((addr.ip, addr.scope_id)),
        spells(p, addr.port as nat),
    ensures
        socket_addr_v6(s) == Some(addr),
{
    let host = seq!['['] + inner;
    let rest = seq![':'] + p;
    lemma_scoped_free(inner, addr.ip, addr.scope_id);
    lemma_spelled_free(p, addr.port as nat, ']');
    lemma_square_brackets(s, inner, p);
    law_decimal_numbers_are_read(p, addr.port as nat, 0xffff);
    assert(host.skip(1) =~= inner);
    assert(rest.skip(1) =~= p);
}

/// An IPv6 address with a port is read from a text for the address and its scope in square
/// brackets, a colon and any text that spells the port; and from nothing else.
pub proof fn law_ipv6_addresses_with_ports_are_read(s: Seq<char>, addr: SocketAddrV6)
    ensures
        socket_addr_v6(s) == Some(addr) <==> addr.flowinfo == 0 && exists|
            inner: Seq<char>,
            p: Seq<char>,
        | #[trigger]
            in_square_brackets(s, inner, p) && scoped_ipv6(inner) == Some((addr.ip, addr.scope_id))
                && spells(p, addr.port as nat),
{
    if socket_addr_v6(s) == Some(addr) {
        lemma_bracketed_is(s, addr);
    }
    if addr.flowinfo == 0 && exists|inner: Seq<char>, p: Seq<char>| #[trigger]
        in_square_brackets(s, inner, p) && scoped_ipv6(inner) == Some((addr.ip, addr.scope_id))
            && spells(p, addr.port as nat) {
        let (inner, p) = choose|inner: Seq<char>, p: Seq<char>| #[trigger]
            in_square_brackets(s, inner, p) && scoped_ipv6(inner) == Some((addr.ip, addr.scope_id))
                && spells(p, addr.port as nat);
        lemma_is_bracketed(s, addr, inner, p);
    }
}

/// An address of either kind is what it is read as, and nothing else is one.
pub proof fn law_either_kind_is_read(s: Seq<char>, v4: Ipv4Addr, v6: Ipv6Addr)
    ensures
        ip_addr(s) == Some(IpAddr::V4(v4)) <==> ipv4(s) == Some(v4),
        ip_addr(s) == Some(IpAddr::V6(v6)) <==> ipv6(s) == Some(v6),
{
    law_readings_exclude_each_other(s);
}

/// An address of either kind with a port is what it is read as, and nothing else is one.
pub proof fn law_either_kind_with_a_port_is_read(
    s: Seq<char>,
    v4: SocketAddrV4,
    v6: SocketAddrV6,
)
    ensures
        socket_addr(s) == Some(SocketAddr::V4(v4)) <==> socket_addr_v4(s) == Some(v4),
        socket_addr(s) == Some(SocketAddr::V6(v6)) <==> socket_addr_v6(s) == Some(v6),
{
    law_readings_exclude_each_other(s);
}

/// A server listens where it is told: at an address with a port, at an address alone and port
/// 7368, or at a port alone and any address. Told anything else it does not listen; told nothing,
/// it listens at port 7368 and any address.
pub proof fn law_a_server_listens_where_it_is_told(s: Seq<char>, addr: SocketAddr)
    ensures
        listen_sockaddr(Some(s)) == Ok::<_, ListenError>(addr) <==> {
            ||| socket_addr(s) == Some(addr)
            ||| match addr {
                SocketAddr::V4(addr) => ipv4(s) == Some(addr.ip) && addr.port == 7368,
                SocketAddr::V6(addr) => ipv6(s) == Some(addr.ip) && addr.port == 7368
                    && addr.flowinfo == 0 && addr.scope_id == 0,
            }
            ||| addr matches SocketAddr::V4(addr) && port(s) == Some(addr.port) && addr.ip == (
            Ipv4Addr { a: 0, b: 0, c: 0, d: 0 })
        },
        listen_sockaddr(Some(s)) is Err <==> socket_addr(s) is None && ip_addr(s) is None && port(
            s,
        ) is None,
        listen_sockaddr(None) == Ok::<_, ListenError>(
            SocketAddr::V4(
                SocketAddrV4 { ip: Ipv4Addr { a: 0, b: 0, c: 0, d: 0 }, port: 7368 },
            ),
        ),
{
    law_readings_exclude_each_other(s);
}

} // verus!
