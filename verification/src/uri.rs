//! The addresses that publishers and clients connect to.
use crate::addr::{Ipv4Addr, SocketAddrV4};
use crate::text::{decimal, decimal_text, is_digit, lemma_decimal_digits};
use vstd::prelude::*;

verus! {

/// `c` is a lower case letter.
pub open spec fn is_lower(c: char) -> bool {
    'a' <= c <= 'z'
}

/// `s` can be the scheme of a URI: lower case letters, not too many.
pub open spec fn is_scheme(s: Seq<char>) -> bool {
    &&& 0 < s.len() <= 64
    &&& forall|i: int| 0 <= i < s.len() ==> is_lower(#[trigger] s[i])
}

/// `s` can be the authority of a URI: digits and dots, with no more than one colon.
pub open spec fn is_authority(s: Seq<char>) -> bool {
    &&& s.len() > 0
    &&& forall|i: int| 0 <= i < s.len() ==> is_digit(#[trigger] s[i]) || s[i] == '.' || s[i] == ':'
    &&& forall|i: int, j: int|
        0 <= i < j < s.len() ==> !(#[trigger] s[i] == ':' && #[trigger] s[j] == ':')
}

/// `s` can be the path of a URI: a slash, then lower case letters, digits and hyphens.
pub open spec fn is_path(s: Seq<char>) -> bool {
    &&& s.len() > 0
    &&& s[0] == '/'
    &&& forall|i: int|
        0 < i < s.len() ==> is_lower(#[trigger] s[i]) || is_digit(s[i]) || s[i] == '-'
}

/// `http::uri::Builder`, with `scheme`, `authority`, `path_and_query` and `build`, and the
/// text of the URI that it makes. For parts like these the builder succeeds and the text holds
/// the parts as they were given.
#[verifier::external_body]
pub(crate) fn build_uri(scheme: &str, authority: &str, path: &str) -> (uri: String)
    requires
        is_scheme(scheme@),
        is_authority(authority@),
        is_path(path@),
    ensures
        uri@ == scheme@ + "://"@ + authority@ + path@,
{
    http::uri::Builder::new()
        .scheme(scheme)
        .authority(authority)
        .path_and_query(path)
        .build()
        .unwrap()
        .to_string()
}

/// An address in dotted decimal.
pub open spec fn dotted(ip: Ipv4Addr) -> Seq<char> {
    decimal(ip.a as nat) + "."@ + decimal(ip.b as nat) + "."@ + decimal(ip.c as nat) + "."@
        + decimal(ip.d as nat)
}

/// An address with its port, as it stands in a URI.
pub open spec fn authority(addr: SocketAddrV4) -> Seq<char> {
    dotted(addr.ip) + ":"@ + decimal(addr.port as nat)
}

/// Writes an address in dotted decimal.
pub fn dotted_text(ip: Ipv4Addr) -> (text: String)
    ensures
        text@ == dotted(ip),
{
    let mut text = decimal_text(ip.a as u16);
    text.append(".");
    text.append(decimal_text(ip.b as u16).as_str());
    text.append(".");
    text.append(decimal_text(ip.c as u16).as_str());
    text.append(".");
    text.append(decimal_text(ip.d as u16).as_str());
    text
}

/// Writes an address with its port.
pub fn authority_text(addr: SocketAddrV4) -> (text: String)
    ensures
        text@ == authority(addr),
{
    let mut text = dotted_text(addr.ip);
    text.append(":");
    text.append(decimal_text(addr.port).as_str());
    text
}

/// The text of an address can be the authority of a URI.
pub proof fn lemma_authority(addr: SocketAddrV4)
    ensures
        is_authority(authority(addr)),
{
    reveal_strlit(".");
    reveal_strlit(":");
    lemma_decimal_digits(addr.ip.a as nat);
    lemma_decimal_digits(addr.ip.b as nat);
    lemma_decimal_digits(addr.ip.c as nat);
    lemma_decimal_digits(addr.ip.d as nat);
    lemma_decimal_digits(addr.port as nat);
    let ab = decimal(addr.ip.a as nat) + "."@ + decimal(addr.ip.b as nat);
    let abc = ab + "."@ + decimal(addr.ip.c as nat);
    assert(dotted(addr.ip) =~= abc + "."@ + decimal(addr.ip.d as nat));
    assert(forall|i: int| 0 <= i < ab.len() ==> is_digit(#[trigger] ab[i]) || ab[i] == '.');
    assert(forall|i: int| 0 <= i < abc.len() ==> is_digit(#[trigger] abc[i]) || abc[i] == '.');
    let host = dotted(addr.ip);
    assert(forall|i: int| 0 <= i < host.len() ==> is_digit(#[trigger] host[i]) || host[i] == '.');
}

/// An address is written as its four numbers, in order, with dots between them, and its port
/// after a colon.
pub proof fn law_addresses_are_spelled_out(addr: SocketAddrV4)
    ensures
        dotted(addr.ip) == decimal(addr.ip.a as nat) + seq!['.'] + decimal(addr.ip.b as nat)
            + seq!['.'] + decimal(addr.ip.c as nat) + seq!['.'] + decimal(addr.ip.d as nat),
        authority(addr) == decimal(addr.ip.a as nat) + seq!['.'] + decimal(addr.ip.b as nat)
            + seq!['.'] + decimal(addr.ip.c as nat) + seq!['.'] + decimal(addr.ip.d as nat)
            + seq![':'] + decimal(addr.port as nat),
{
    reveal_strlit(".");
    reveal_strlit(":");
}

} // verus!
