//! Random identifiers, which serve as the secret part of a path.
use vstd::prelude::*;

verus! {

/// The hexadecimal digit `n`, in lower case.
pub open spec fn hex_digit(n: u128) -> char {
    if n < 10 {
        ('0' as u128 + n) as char
    } else {
        ('a' as u128 + n - 10) as char
    }
}

/// Digit number `k` of 32, the most significant first.
pub open spec fn nibble(id: u128, k: int) -> u128 {
    (id >> ((124 - 4 * k) as u128)) & 0xf
}

/// An identifier as text: 32 hexadecimal digits in groups of 8, 4, 4, 4 and 12.
pub open spec fn hyphenated(id: u128) -> Seq<char> {
    Seq::new(
        36,
        |i: int|
            if i == 8 || i == 13 || i == 18 || i == 23 {
                '-'
            } else if i < 8 {
                hex_digit(nibble(id, i))
            } else if i < 13 {
                hex_digit(nibble(id, i - 1))
            } else if i < 18 {
                hex_digit(nibble(id, i - 2))
            } else if i < 23 {
                hex_digit(nibble(id, i - 3))
            } else {
                hex_digit(nibble(id, i - 4))
            },
    )
}

/// `id` is marked as a random identifier: version 4, in the variant of RFC 4122.
pub open spec fn is_random_id(id: u128) -> bool {
    &&& (id >> 76) & 0xf == 4
    &&& (id >> 62) & 0x3 == 2
}

/// `uuid::Uuid::new_v4`: a fresh random identifier. All that is known of it is how it is
/// marked. The call panics where the system has no source of random numbers.
#[verifier::external_body]
pub(crate) fn random_id() -> (id: u128)
    ensures
        is_random_id(id),
{
    uuid::Uuid::new_v4().as_u128()
}

/// `uuid::Uuid::to_string`: the identifier in lower case, with hyphens.
#[verifier::external_body]
pub(crate) fn id_text(id: u128) -> (text: String)
    ensures
        text@ == hyphenated(id),
{
    uuid::Uuid::from_u128(id).to_string()
}

proof fn lemma_nibble_small(id: u128, k: int)
    requires
        0 <= k < 32,
    ensures
        nibble(id, k) < 16,
{
    let shift = (124 - 4 * k) as u128;
    assert((id >> shift) & 0xf < 16) by (bit_vector);
}

/// What [`hyphenated`] gives holds only lower case hexadecimal digits and hyphens.
pub proof fn lemma_hyphenated_characters(id: u128)
    ensures
        hyphenated(id).len() == 36,
        forall|i: int|
            0 <= i < 36 ==> {
                let c = #[trigger] hyphenated(id)[i];
                c == '-' || '0' <= c <= '9' || 'a' <= c <= 'f'
            },
{
    assert forall|i: int| 0 <= i < 36 implies {
        let c = #[trigger] hyphenated(id)[i];
        c == '-' || '0' <= c <= '9' || 'a' <= c <= 'f'
    } by {
        if i < 8 {
            lemma_nibble_small(id, i);
        } else if 8 < i < 13 {
            lemma_nibble_small(id, i - 1);
        } else if 13 < i < 18 {
            lemma_nibble_small(id, i - 2);
        } else if 18 < i < 23 {
            lemma_nibble_small(id, i - 3);
        } else if 23 < i {
            lemma_nibble_small(id, i - 4);
        }
    }
}

/// Where nibble number `k` stands in the text.
spec fn position(k: int) -> int {
    if k < 8 {
        k
    } else if k < 12 {
        k + 1
    } else if k < 16 {
        k + 2
    } else if k < 20 {
        k + 3
    } else {
        k + 4
    }
}

/// Two identifiers with the same text are the same.
pub proof fn law_text_identifies(x: u128, y: u128)
    requires
        hyphenated(x) == hyphenated(y),
    ensures
        x == y,
{
    assert forall|k: int| 0 <= k < 32 implies #[trigger] nibble(x, k) == nibble(y, k) by {
        lemma_nibble_small(x, k);
        lemma_nibble_small(y, k);
        assert(hyphenated(x)[position(k)] == hex_digit(nibble(x, k)));
        assert(hyphenated(y)[position(k)] == hex_digit(nibble(y, k)));
    }
    lemma_leading_nibbles(x, y, 31);
    assert(x >> 0u128 == x && y >> 0u128 == y) by (bit_vector);
}

/// Identifiers with the same nibbles agree in their first `k + 1` nibbles.
proof fn lemma_leading_nibbles(x: u128, y: u128, k: int)
    requires
        0 <= k < 32,
        forall|j: int| 0 <= j < 32 ==> #[trigger] nibble(x, j) == nibble(y, j),
    ensures
        x >> ((124 - 4 * k) as u128) == y >> ((124 - 4 * k) as u128),
    decreases k,
{
    assert(nibble(x, k) == nibble(y, k));
    let shift = (124 - 4 * k) as u128;
    if k == 0 {
        assert(x >> 124 == y >> 124) by (bit_vector)
            requires
                (x >> 124) & 0xf == (y >> 124) & 0xf,
        ;
    } else {
        lemma_leading_nibbles(x, y, k - 1);
        let wider = (shift + 4) as u128;
        assert(x >> shift == y >> shift) by (bit_vector)
            requires
                shift <= 120,
                wider == shift + 4,
                x >> wider == y >> wider,
                (x >> shift) & 0xf == (y >> shift) & 0xf,
        ;
    }
}

/// Where digit number `k` of an identifier stands in its text, that digit stands; the four places
/// between the groups hold hyphens.
pub proof fn law_the_text_spells_the_identifier(id: u128, i: int)
    requires
        0 <= i < 36,
    ensures
        hyphenated(id).len() == 36,
        hyphenated(id)[i] == '-' <==> i == 8 || i == 13 || i == 18 || i == 23,
        ({
            let hyphens: int = if i < 8 {
                0
            } else if i < 13 {
                1
            } else if i < 18 {
                2
            } else if i < 23 {
                3
            } else {
                4
            };
            let value = (id >> ((124 - 4 * (i - hyphens)) as u128)) & 0xf;
            let c = hyphenated(id)[i];
            c != '-' ==> if value < 10 {
                c as nat == '0' as nat + value
            } else {
                c as nat == 'a' as nat + value - 10
            }
        }),
{
    if i < 8 {
        lemma_nibble_small(id, i);
    } else if 8 < i < 13 {
        lemma_nibble_small(id, i - 1);
    } else if 13 < i < 18 {
        lemma_nibble_small(id, i - 2);
    } else if 18 < i < 23 {
        lemma_nibble_small(id, i - 3);
    } else if 23 < i {
        lemma_nibble_small(id, i - 4);
    }
}

/// Random identifiers are those whose text has a four at the start of the third group, and an
/// eight, a nine, an `a` or a `b` at the start of the fourth.
pub proof fn law_random_identifiers_look_random(id: u128)
    ensures
        is_random_id(id) <==> hyphenated(id)[14] == '4' && (hyphenated(id)[19] == '8' || hyphenated(
            id,
        )[19] == '9' || hyphenated(id)[19] == 'a' || hyphenated(id)[19] == 'b'),
{
    lemma_nibble_small(id, 12);
    lemma_nibble_small(id, 16);
    assert(hyphenated(id)[14] == hex_digit((id >> 76) & 0xf));
    assert(hyphenated(id)[19] == hex_digit((id >> 60) & 0xf));
    assert((id >> 62) & 0x3 == 2 <==> ((id >> 60) & 0xf == 8 || (id >> 60) & 0xf == 9 || (id >> 60)
        & 0xf == 10 || (id >> 60) & 0xf == 11)) by (bit_vector);
}

} // verus!
