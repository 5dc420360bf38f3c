//! Identifiers: 128-bit UUIDs, their random (version 4) generation and their
//! canonical hyphenated text.

use crate::text::push_char;
use vstd::prelude::*;

verus! {

/// A 128-bit universally unique identifier, held as its integer value
/// (the first byte of the textual form is the most significant byte).
#[derive(Debug, Clone, Copy, PartialEq, Eq, Hash, Structural)]
pub struct Uuid(pub u128);

/// Bits of the version field of a UUID.
pub open spec fn version_bits(v: u128) -> u128 {
    v & 0xF000_0000_0000_0000_0000u128
}

/// Bits of the variant field of a UUID.
pub open spec fn variant_bits(v: u128) -> u128 {
    v & 0xC000_0000_0000_0000u128
}

/// `id` carries the marks of a random UUID: version 4, RFC 4122 variant.
pub open spec fn is_random_v4(id: Uuid) -> bool {
    &&& version_bits(id.0) == 0x4000_0000_0000_0000_0000u128
    &&& variant_bits(id.0) == 0x8000_0000_0000_0000u128
}

/// Draws a random version 4 UUID and returns its 128-bit value.
///
/// Trusted: `uuid::Uuid::new_v4` (then `as_u128`). Its source masks random
/// bits and sets the version field to 4 and the variant field to RFC 4122;
/// nothing else is claimed of the value, which is random. (It panics when the
/// operating system's random source fails.)
#[verifier::external_body]
fn random_v4_value() -> (v: u128)
    ensures
        version_bits(v) == 0x4000_0000_0000_0000_0000u128,
        variant_bits(v) == 0x8000_0000_0000_0000u128,
{
    uuid::Uuid::new_v4().as_u128()
}

/// The lowercase hexadecimal digit for `n` (meant for `n < 16`).
pub open spec fn hex_digit(n: u128) -> char {
    if n < 10 {
        ((48 + n) as u8) as char
    } else {
        ((87 + n) as u8) as char
    }
}

/// The `k`-th hexadecimal digit of `v`, counting from the most significant (`0 <= k < 32`).
pub open spec fn nibble(v: u128, k: int) -> u128 {
    (v >> ((124 - 4 * k) as u32)) & 15u128
}

/// Which of the 32 hexadecimal digits stands at character `i` of the
/// hyphenated form `8-4-4-4-12`, or `-1` where a hyphen stands.
pub open spec fn digit_index(i: int) -> int {
    if i < 8 {
        i
    } else if i == 8 {
        -1
    } else if i < 13 {
        i - 1
    } else if i == 13 {
        -1
    } else if i < 18 {
        i - 2
    } else if i == 18 {
        -1
    } else if i < 23 {
        i - 3
    } else if i == 23 {
        -1
    } else {
        i - 4
    }
}

/// The canonical text of a UUID: 32 lowercase hexadecimal digits, most
/// significant first, grouped `8-4-4-4-12` by hyphens.
pub open spec fn uuid_text(v: u128) -> Seq<char> {
    Seq::new(
        36,
        |i: int|
            if digit_index(i) < 0 {
                '-'
            } else {
                hex_digit(nibble(v, digit_index(i)))
            },
    )
}

/// The value of a hexadecimal digit character (`0`..`9`, `a`..`f`).
pub open spec fn hex_value(c: char) -> int {
    if '0' <= c && c <= '9' {
        c as int - 48
    } else {
        c as int - 87
    }
}

/// `c` is a lowercase hexadecimal digit.
pub open spec fn is_lower_hex_digit(c: char) -> bool {
    ('0' <= c && c <= '9') || ('a' <= c && c <= 'f')
}

/// The number that the hexadecimal digits of `t` denote, most significant
/// first, hyphens skipped.
pub open spec fn hex_number(t: Seq<char>) -> int
    decreases t.len(),
{
    if t.len() == 0 {
        0
    } else if t.last() == '-' {
        hex_number(t.drop_last())
    } else {
        hex_number(t.drop_last()) * 16 + hex_value(t.last())
    }
}

/// How many of the first `i` characters of the hyphenated form are digits.
spec fn digits_before(i: int) -> int {
    if i <= 8 {
        i
    } else if i <= 13 {
        i - 1
    } else if i <= 18 {
        i - 2
    } else if i <= 23 {
        i - 3
    } else {
        i - 4
    }
}

/// The number that the first `d` hexadecimal digits of `v` denote.
spec fn leading_digits(v: u128, d: int) -> int {
    if d <= 0 {
        0
    } else {
        (v >> ((128 - 4 * d) as u32)) as int
    }
}

proof fn lemma_next_digit(v: u128, d: int)
    requires
        0 <= d < 32,
    ensures
        leading_digits(v, d) * 16 + nibble(v, d) as int == leading_digits(v, d + 1),
{
    if d == 0 {
        assert((v >> 124u32) & 15u128 == v >> 124u32) by (bit_vector);
    } else {
        let s: u32 = (124 - 4 * d) as u32;
        assert(s <= 120);
        assert((v >> (s + 4)) * 16 + ((v >> s) & 15u128) == v >> s) by (bit_vector)
            requires
                s <= 120,
        ;
        assert((128 - 4 * d) as u32 == s + 4);
    }
}

proof fn lemma_hex_digit(n: u128)
    requires
        n < 16,
    ensures
        is_lower_hex_digit(hex_digit(n)),
        hex_value(hex_digit(n)) == n,
{
    if n < 10 {
        assert(((48 + n) as u8) as int == 48 + n);
        assert((hex_digit(n) as int) == 48 + n);
    } else {
        assert(((87 + n) as u8) as int == 87 + n);
        assert((hex_digit(n) as int) == 87 + n);
    }
}

proof fn lemma_text_prefix_value(v: u128, i: int)
    requires
        0 <= i <= 36,
    ensures
        hex_number(uuid_text(v).take(i)) == leading_digits(v, digits_before(i)),
    decreases i,
{
    let t = uuid_text(v);
    if i == 0 {
        assert(t.take(0) =~= Seq::<char>::empty());
    } else {
        lemma_text_prefix_value(v, i - 1);
        assert(t.take(i).drop_last() =~= t.take(i - 1));
        assert(t.take(i).last() == t[i - 1]);
        if digit_index(i - 1) >= 0 {
            let k = digit_index(i - 1);
            assert(k == digits_before(i - 1));
            assert(nibble(v, k) < 16) by {
                let s = (124 - 4 * k) as u32;
                assert((v >> s) & 15u128 < 16) by (bit_vector);
            }
            lemma_hex_digit(nibble(v, k));
            assert(t[i - 1] != '-');
            lemma_next_digit(v, k);
        }
    }
}

/// Law: the canonical text of a UUID is its numeral: 36 characters with
/// hyphens exactly at places 8, 13, 18 and 23, lowercase hexadecimal digits
/// everywhere else, and those digits read in base 16 are the value itself.
pub proof fn lemma_uuid_text_is_numeral(v: u128)
    ensures
        uuid_text(v).len() == 36,
        forall|i: int|
            0 <= i < 36 ==> (#[trigger] uuid_text(v)[i] == '-' <==> (i == 8 || i == 13 || i == 18
                || i == 23)),
        forall|i: int|
            0 <= i < 36 && i != 8 && i != 13 && i != 18 && i != 23 ==> is_lower_hex_digit(
                #[trigger] uuid_text(v)[i],
            ),
        hex_number(uuid_text(v)) == v,
{
    assert forall|i: int| 0 <= i < 36 && digit_index(i) >= 0 implies is_lower_hex_digit(
        #[trigger] uuid_text(v)[i],
    ) && uuid_text(v)[i] != '-' by {
        let k = digit_index(i);
        assert(nibble(v, k) < 16) by {
            let s = (124 - 4 * k) as u32;
            assert((v >> s) & 15u128 < 16) by (bit_vector);
        }
        lemma_hex_digit(nibble(v, k));
    }
    lemma_text_prefix_value(v, 36);
    assert(uuid_text(v).take(36) =~= uuid_text(v));
    assert(v >> 0u32 == v) by (bit_vector);
}

/// Appends the canonical text of `v` to `out`.
pub(crate) fn push_uuid_text(out: &mut String, v: u128)
    ensures
        final(out)@ == old(out)@ + uuid_text(v),
{
    let ghost start = out@;
    let mut i: u32 = 0;
    let mut k: u32 = 0;
    while i < 36
        invariant
            i <= 36,
            out@ == start + uuid_text(v).take(i as int),
            i < 36 ==> k == (if digit_index(i as int) < 0 { digit_index(i as int + 1) } else { digit_index(i as int) }),
        decreases 36 - i,
    {
        if i == 8 || i == 13 || i == 18 || i == 23 {
            push_char(out, '-');
        } else {
            let shift: u32 = 124 - 4 * k;
            let n: u128 = (v >> shift) & 15u128;
            assert(n < 16) by (bit_vector)
                requires
                    n == (v >> shift) & 15u128,
            ;
            let c: char = if n < 10 {
                (48u8 + n as u8) as char
            } else {
                (87u8 + n as u8) as char
            };
            push_char(out, c);
            k = k + 1;
        }
        assert(uuid_text(v).take(i as int + 1) =~= uuid_text(v).take(i as int).push(
            uuid_text(v)[i as int],
        ));
        i = i + 1;
    }
    assert(uuid_text(v).take(36) =~= uuid_text(v));
}

impl Uuid {
    /// A fresh random identifier (version 4, RFC 4122 variant).
    pub fn new_v4() -> (id: Uuid)
        ensures
            is_random_v4(id),
    {
        Uuid(random_v4_value())
    }

    /// The identifier with the given 128-bit value.
    pub fn from_u128(value: u128) -> (id: Uuid)
        ensures
            id.0 == value,
    {
        Uuid(value)
    }

    /// The 128-bit value of this identifier.
    pub fn as_u128(&self) -> (value: u128)
        ensures
            value == self.0,
    {
        self.0
    }

    /// The canonical hyphenated text of this identifier.
    pub fn to_hyphenated_string(&self) -> (s: String)
        ensures
            s@ == uuid_text(self.0),
    {
        let mut s = String::new();
        push_uuid_text(&mut s, self.0);
        s
    }
}

} // verus!
