//! Which texts are numbers and addresses, and of what value: the readers accept these texts and
//! no others.
use crate::addr::{Ipv4Addr, SocketAddrV4};
use crate::parse::{
    digit_value, digits_value, ipv4, lemma_split_some, number, octet, port, socket_addr_v4, split,
    texts,
};
use crate::readback::{
    free_of, law_dotted_reads_back, lemma_decimal_free, lemma_dotted_free, lemma_split_append,
    lemma_split_free,
};
use crate::text::{decimal, hex_character, hexadecimal, is_digit, lemma_decimal_digits};
use crate::uri::dotted;
use vstd::arithmetic::div_mod::{
    lemma_fundamental_div_mod, lemma_fundamental_div_mod_converse,
};
use vstd::prelude::*;

verus! {

/// So many zeros.
pub open spec fn zeros(k: nat) -> Seq<char> {
    Seq::new(k, |i: int| '0')
}

/// The text is `n` in decimal, with any number of zeros before it.
pub open spec fn spells(s: Seq<char>, n: nat) -> bool {
    exists|k: nat| s == #[trigger] zeros(k) + decimal(n)
}

/// The text with the letters that are hexadecimal digits in lower case.
pub open spec fn lower_case(s: Seq<char>) -> Seq<char> {
    s.map_values(
        |c: char|
            match c {
                'A' => 'a',
                'B' => 'b',
                'C' => 'c',
                'D' => 'd',
                'E' => 'e',
                'F' => 'f',
                _ => c,
            },
    )
}

/// The text is `n` in hexadecimal, in either case, with any number of zeros before it.
pub open spec fn spells_hexadecimal(s: Seq<char>, n: nat) -> bool {
    exists|k: nat| lower_case(s) == #[trigger] zeros(k) + hexadecimal(n)
}

/// Texts with a separator between any two.
pub open spec fn joined(pieces: Seq<Seq<char>>, sep: char) -> Seq<char>
    decreases pieces.len(),
{
    if pieces.len() == 0 {
        Seq::empty()
    } else if pieces.len() == 1 {
        pieces[0]
    } else {
        joined(pieces.drop_last(), sep) + seq![sep] + pieces.last()
    }
}

proof fn lemma_zeros_value(k: nat, radix: nat)
    requires
        radix > 0,
    ensures
        digits_value(zeros(k), radix) == Some(0nat),
    decreases k,
{
    if k > 0 {
        lemma_zeros_value((k - 1) as nat, radix);
        assert(zeros(k).drop_last() =~= zeros((k - 1) as nat));
        assert(digit_value('0', radix) == Some(0nat));
        assert(0 * radix == 0) by (nonlinear_arith);
    }
}

proof fn lemma_spelled_value(k: nat, n: nat)
    ensures
        digits_value(zeros(k) + decimal(n), 10) == Some(n),
    decreases n,
{
    let text = zeros(k) + decimal(n);
    if n < 10 {
        lemma_zeros_value(k, 10);
        assert(text.drop_last() =~= zeros(k));
        assert(text.last() == decimal(n)[0]);
    } else {
        lemma_spelled_value(k, n / 10);
        assert(text.drop_last() =~= zeros(k) + decimal(n / 10));
        assert(text.last() == decimal(n).last());
    }
}

proof fn lemma_value_is_spelled(s: Seq<char>, n: nat)
    requires
        s.len() > 0,
        digits_value(s, 10) == Some(n),
    ensures
        spells(s, n),
    decreases s.len(),
{
    let front = s.drop_last();
    let d = digit_value(s.last(), 10)->0;
    assert(front.push(s.last()) =~= s);
    if front.len() == 0 {
        assert(digits_value(front, 10) == Some(0nat));
        assert(s =~= zeros(0) + decimal(n));
    } else {
        let f = digits_value(front, 10)->0;
        lemma_value_is_spelled(front, f);
        let k = choose|k: nat| front == #[trigger] zeros(k) + decimal(f);
        if f == 0 {
            assert(s =~= zeros(k + 1) + decimal(n));
        } else {
            assert(n / 10 == f && n % 10 == d);
            assert(s =~= zeros(k) + decimal(n));
        }
    }
}

/// A number in decimal is read from exactly the texts that spell it, if it is not too large.
pub proof fn law_decimal_numbers_are_read(s: Seq<char>, n: nat, max: nat)
    ensures
        number(s, 10, max) == Some(n) <==> spells(s, n) && n <= max,
{
    if spells(s, n) {
        let k = choose|k: nat| s == #[trigger] zeros(k) + decimal(n);
        lemma_spelled_value(k, n);
        lemma_decimal_digits(n);
    }
    if number(s, 10, max) == Some(n) {
        lemma_value_is_spelled(s, n);
    }
}

proof fn lemma_lower_case_value(s: Seq<char>)
    ensures
        digits_value(lower_case(s), 16) == digits_value(s, 16),
    decreases s.len(),
{
    if s.len() > 0 {
        lemma_lower_case_value(s.drop_last());
        assert(lower_case(s).drop_last() =~= lower_case(s.drop_last()));
        assert(digit_value(lower_case(s).last(), 16) == digit_value(s.last(), 16));
    }
}

proof fn lemma_spelled_hexadecimal_value(k: nat, n: nat)
    ensures
        digits_value(zeros(k) + hexadecimal(n), 16) == Some(n),
        hexadecimal(n).len() > 0,
    decreases n,
{
    let text = zeros(k) + hexadecimal(n);
    if n < 16 {
        lemma_zeros_value(k, 16);
        assert(text.drop_last() =~= zeros(k));
        assert(text.last() == hexadecimal(n)[0]);
    } else {
        lemma_spelled_hexadecimal_value(k, n / 16);
        assert(text.drop_last() =~= zeros(k) + hexadecimal(n / 16));
        assert(text.last() == hexadecimal(n).last());
    }
}

proof fn lemma_value_is_spelled_hexadecimal(s: Seq<char>, n: nat)
    requires
        s.len() > 0,
        digits_value(s, 16) == Some(n),
    ensures
        spells_hexadecimal(s, n),
    decreases s.len(),
{
    let front = s.drop_last();
    let d = digit_value(s.last(), 16)->0;
    assert(lower_case(s) =~= lower_case(front).push(lower_case(s).last()));
    assert(lower_case(s).last() == hex_character(d));
    if front.len() == 0 {
        assert(digits_value(front, 16) == Some(0nat));
        assert(lower_case(s) =~= zeros(0) + hexadecimal(n));
    } else {
        let f = digits_value(front, 16)->0;
        lemma_value_is_spelled_hexadecimal(front, f);
        let k = choose|k: nat| lower_case(front) == #[trigger] zeros(k) + hexadecimal(f);
        if f == 0 {
            assert(lower_case(s) =~= zeros(k + 1) + hexadecimal(n));
        } else {
            assert(n / 16 == f && n % 16 == d);
            assert(lower_case(s) =~= zeros(k) + hexadecimal(n));
        }
    }
}

/// A number in hexadecimal is read from exactly the texts that spell it, in either case, if it
/// is not too large.
pub proof fn law_hexadecimal_numbers_are_read(s: Seq<char>, n: nat, max: nat)
    ensures
        number(s, 16, max) == Some(n) <==> spells_hexadecimal(s, n) && n <= max,
{
    lemma_lower_case_value(s);
    assert(lower_case(s).len() == s.len());
    if spells_hexadecimal(s, n) {
        let k = choose|k: nat| lower_case(s) == #[trigger] zeros(k) + hexadecimal(n);
        lemma_spelled_hexadecimal_value(k, n);
    }
    if number(s, 16, max) == Some(n) {
        lemma_value_is_spelled_hexadecimal(s, n);
    }
}

/// A port alone is read from exactly the texts that spell it, with or without a plus sign.
pub proof fn law_ports_are_read(s: Seq<char>, n: u16)
    ensures
        port(s) == Some(n) <==> spells(s, n as nat) || (s.len() > 0 && s[0] == '+' && spells(
            s.skip(1),
            n as nat,
        )),
{
    law_decimal_numbers_are_read(s, n as nat, 0xffff);
    law_decimal_numbers_are_read(s.skip(1), n as nat, 0xffff);
    if s.len() > 0 && s[0] == '+' && spells(s, n as nat) {
        let k = choose|k: nat| s == #[trigger] zeros(k) + decimal(n as nat);
        lemma_decimal_digits(n as nat);
        assert(s[0] == '0' || s[0] == decimal(n as nat)[0]);
        assert(is_digit(decimal(n as nat)[0]));
    }
}

/// Cutting a text at its separators loses nothing: put together again, the pieces are the text,
/// and none of them holds a separator.
pub proof fn law_the_pieces_make_the_text(s: Seq<char>, sep: char)
    ensures
        joined(split(s, sep), sep) == s,
        split(s, sep).len() > 0,
        forall|i: int| 0 <= i < split(s, sep).len() ==> free_of(#[trigger] split(s, sep)[i], sep),
    decreases s.len(),
{
    lemma_split_some(s, sep);
    if s.len() > 0 {
        let front = s.drop_last();
        let before = split(front, sep);
        law_the_pieces_make_the_text(front, sep);
        assert(front.push(s.last()) =~= s);
        if s.last() == sep {
            assert(split(s, sep).drop_last() =~= before);
            assert(s =~= front + seq![sep] + Seq::<char>::empty());
            assert forall|i: int| 0 <= i < split(s, sep).len() implies free_of(
                #[trigger] split(s, sep)[i],
                sep,
            ) by {
                if i < before.len() {
                    assert(split(s, sep)[i] == before[i]);
                    assert(free_of(before[i], sep));
                }
            }
        } else {
            let last = before.last().push(s.last());
            assert(split(s, sep) =~= before.drop_last().push(last));
            assert(split(s, sep).drop_last() =~= before.drop_last());
            if before.len() > 1 {
                assert(joined(before.drop_last(), sep) + seq![sep] + last =~= s);
            }
            assert forall|i: int| 0 <= i < split(s, sep).len() implies free_of(
                #[trigger] split(s, sep)[i],
                sep,
            ) by {
                if i < before.len() - 1 {
                    assert(split(s, sep)[i] == before[i]);
                    assert(free_of(before[i], sep));
                } else {
                    assert(free_of(before[before.len() - 1], sep));
                }
            }
        }
    }
}

/// Putting texts without separators together and cutting them again gives those texts.
pub proof fn law_the_text_gives_the_pieces(pieces: Seq<Seq<char>>, sep: char)
    requires
        pieces.len() > 0,
        forall|i: int| 0 <= i < pieces.len() ==> free_of(#[trigger] pieces[i], sep),
    ensures
        split(joined(pieces, sep), sep) == pieces,
    decreases pieces.len(),
{
    assert(free_of(pieces[pieces.len() - 1], sep));
    if pieces.len() == 1 {
        lemma_split_free(pieces[0], sep);
        assert(pieces =~= seq![pieces[0]]);
    } else {
        let front = pieces.drop_last();
        assert forall|i: int| 0 <= i < front.len() implies free_of(#[trigger] front[i], sep) by {
            assert(free_of(pieces[i], sep));
        }
        law_the_text_gives_the_pieces(front, sep);
        lemma_split_append(joined(front, sep), sep, pieces.last());
        assert(front.push(pieces.last()) =~= pieces);
    }
}

/// The pieces of a list are the pieces, each with its characters.
pub proof fn law_pieces_keep_their_characters(list: Seq<Vec<char>>, i: int)
    ensures
        texts(list).len() == list.len(),
        0 <= i < list.len() ==> texts(list)[i] == list[i]@,
{
}

proof fn lemma_octet(s: Seq<char>, v: u8)
    requires
        octet(s) == Some(v),
    ensures
        s == decimal(v as nat),
{
    law_decimal_numbers_are_read(s, number(s, 10, 255)->0, 255);
    let k = choose|k: nat| s == #[trigger] zeros(k) + decimal(v as nat);
    lemma_decimal_digits(v as nat);
    if k > 0 {
        assert(s[0] == '0');
    }
    assert(s =~= decimal(v as nat));
}

/// An IPv4 address is read from exactly one text: its four numbers without leading zeros and
/// with dots between them.
pub proof fn law_ipv4_addresses_are_read(s: Seq<char>, ip: Ipv4Addr)
    ensures
        ipv4(s) == Some(ip) <==> s == decimal(ip.a as nat) + seq!['.'] + decimal(ip.b as nat)
            + seq!['.'] + decimal(ip.c as nat) + seq!['.'] + decimal(ip.d as nat),
{
    let text = decimal(ip.a as nat) + seq!['.'] + decimal(ip.b as nat) + seq!['.'] + decimal(
        ip.c as nat,
    ) + seq!['.'] + decimal(ip.d as nat);
    reveal_strlit(".");
    assert(dotted(ip) =~= text);
    law_dotted_reads_back(ip);
    if ipv4(s) == Some(ip) {
        let p = split(s, '.');
        lemma_octet(p[0], ip.a);
        lemma_octet(p[1], ip.b);
        lemma_octet(p[2], ip.c);
        lemma_octet(p[3], ip.d);
        law_the_pieces_make_the_text(s, '.');
        reveal_with_fuel(joined, 5);
        assert(p.drop_last().last() == p[2]);
        assert(p.drop_last().drop_last().last() == p[1]);
        assert(joined(p, '.') =~= text);
    }
}

/// An IPv4 address with a port is read from the text of the address, a colon and any text that
/// spells the port, and from nothing else.
pub proof fn law_ipv4_addresses_with_ports_are_read(s: Seq<char>, addr: SocketAddrV4)
    ensures
        socket_addr_v4(s) == Some(addr) <==> exists|p: Seq<char>| #[trigger]
            spells(p, addr.port as nat) && s == dotted(addr.ip) + seq![':'] + p,
{
    let parts = split(s, ':');
    reveal_strlit(".");
    if socket_addr_v4(s) == Some(addr) {
        law_the_pieces_make_the_text(s, ':');
        law_ipv4_addresses_are_read(parts[0], addr.ip);
        law_decimal_numbers_are_read(parts[1], addr.port as nat, 0xffff);
        reveal_with_fuel(joined, 3);
        assert(dotted(addr.ip) =~= parts[0]);
        assert(parts.drop_last()[0] == parts[0]);
        assert(spells(parts[1], addr.port as nat) && s == dotted(addr.ip) + seq![':'] + parts[1]);
    }
    if exists|p: Seq<char>| #[trigger]
        spells(p, addr.port as nat) && s == dotted(addr.ip) + seq![':'] + p {
        let p = choose|p: Seq<char>| #[trigger]
            spells(p, addr.port as nat) && s == dotted(addr.ip) + seq![':'] + p;
        lemma_spelled_free(p, addr.port as nat, ':');
        lemma_dotted_free(addr.ip, ':');
        lemma_split_free(dotted(addr.ip), ':');
        lemma_split_append(dotted(addr.ip), ':', p);
        assert(parts =~= seq![dotted(addr.ip), p]);
        law_dotted_reads_back(addr.ip);
        law_decimal_numbers_are_read(p, addr.port as nat, 0xffff);
    }
}

/// A text that spells a number holds digits only.
pub proof fn lemma_spelled_free(p: Seq<char>, n: nat, c: char)
    requires
        spells(p, n),
        !is_digit(c),
    ensures
        free_of(p, c),
{
    let k = choose|k: nat| p == #[trigger] zeros(k) + decimal(n);
    lemma_decimal_free(n, c);
}

/// What a digit counts for. Letters come after nine, in either case.
pub open spec fn counts_for(c: char, d: nat) -> bool {
    ||| '0' <= c <= '9' && d == c as nat - '0' as nat
    ||| 'a' <= c <= 'f' && d == c as nat - 'a' as nat + 10
    ||| 'A' <= c <= 'F' && d == c as nat - 'A' as nat + 10
}

/// In any base up to sixteen, one more digit makes a number so many times larger, and the digit
/// itself more. A number has at least one digit, none too large for its base, and is not too
/// large itself.
pub proof fn law_one_more_digit(s: Seq<char>, c: char, radix: nat, max: nat, v: nat)
    requires
        2 <= radix <= 16,
    ensures
        number(Seq::empty(), radix, max) is None,
        number(seq![c], radix, max) == Some(v) <==> counts_for(c, v) && v < radix && v <= max,
        s.len() > 0 ==> (number(s.push(c), radix, max) == Some(v) <==> v <= max && number(
            s,
            radix,
            max,
        ) == Some(v / radix) && counts_for(c, v % radix)),
{
    assert(seq![c].drop_last() =~= Seq::<char>::empty());
    assert(digits_value(seq![c].drop_last(), radix) == Some(0nat));
    assert(0 * radix == 0) by (nonlinear_arith);
    assert(s.push(c).drop_last() =~= s);
    assert(s.push(c).last() == c);
    if let Some(f) = digits_value(s, radix) {
        if let Some(d) = digit_value(c, radix) {
            let value = (f * radix + d) as int;
            lemma_fundamental_div_mod_converse(value, radix as int, f as int, d as int);
            assert(f <= f * radix + d) by (nonlinear_arith)
                requires
                    radix >= 1,
            ;
        }
    }
    lemma_fundamental_div_mod(v as int, radix as int);
    assert(v == (v / radix) * radix + v % radix) by {
        assert(radix * (v / radix) == (v / radix) * radix) by (nonlinear_arith);
    }
    assert(v % radix < radix) by (nonlinear_arith)
        requires
            radix >= 2,
    ;
}

} // verus!
