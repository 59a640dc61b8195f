//! The textual projection of identifiers: rendering a 64-bit identifier
//! as its registered label (or as a `0x`-prefixed hexadecimal literal
//! when no label is registered), and parsing identifier text back.
//!
//! Rendering consults the registry; parsing deliberately does not: a
//! `0x`-prefixed literal is read as a 64-bit hexadecimal number, and any
//! other text is re-hashed directly. The asymmetry is part of the
//! interface contract: a label round-trips to the original identifier
//! exactly when its text hashes to that identifier.

use vstd::prelude::*;

verus! {

use crate::codec::SliError;
use crate::hash::{hash40, hash40_spec};
use crate::registry::LabelRegistry;

/// The lowercase hexadecimal digit for a value below 16.
pub open spec fn hex_digit_char(d: u64) -> char {
    if d == 0 {
        '0'
    } else if d == 1 {
        '1'
    } else if d == 2 {
        '2'
    } else if d == 3 {
        '3'
    } else if d == 4 {
        '4'
    } else if d == 5 {
        '5'
    } else if d == 6 {
        '6'
    } else if d == 7 {
        '7'
    } else if d == 8 {
        '8'
    } else if d == 9 {
        '9'
    } else if d == 10 {
        'a'
    } else if d == 11 {
        'b'
    } else if d == 12 {
        'c'
    } else if d == 13 {
        'd'
    } else if d == 14 {
        'e'
    } else {
        'f'
    }
}

/// The lowercase hexadecimal digits of a value, most significant first,
/// without leading zeros (zero itself is the single digit `0`).
pub open spec fn spec_hex_digits(v: u64) -> Seq<char>
    decreases v,
{
    if v < 16 {
        seq![hex_digit_char(v)]
    } else {
        spec_hex_digits(v / 16).push(hex_digit_char(v % 16))
    }
}

/// How an identifier is displayed: its registered label if the registry
/// holds one, else a `0x`-prefixed lowercase hexadecimal literal.
pub open spec fn spec_render(m: Map<u64, Seq<char>>, id: u64) -> Seq<char> {
    if m.contains_key(id) {
        m[id]
    } else {
        seq!['0', 'x'] + spec_hex_digits(id)
    }
}

/// Whether the character is a hexadecimal digit of either case.
pub open spec fn is_hex_digit(c: char) -> bool {
    (('0' as u32) <= (c as u32) && (c as u32) <= ('9' as u32)) || (('a' as u32) <= (c as u32) && (c
        as u32) <= ('f' as u32)) || (('A' as u32) <= (c as u32) && (c as u32) <= ('F' as u32))
}

/// The value of a hexadecimal digit character.
pub open spec fn hex_digit_val(c: char) -> u64 {
    if ('0' as u32) <= (c as u32) && (c as u32) <= ('9' as u32) {
        ((c as u32) - ('0' as u32)) as u64
    } else if ('a' as u32) <= (c as u32) && (c as u32) <= ('f' as u32) {
        ((c as u32) - ('a' as u32) + 10) as u64
    } else if ('A' as u32) <= (c as u32) && (c as u32) <= ('F' as u32) {
        ((c as u32) - ('A' as u32) + 10) as u64
    } else {
        0
    }
}

/// The unbounded value of a string of hexadecimal digits (most
/// significant first).
pub open spec fn spec_hex_value(s: Seq<char>) -> int
    decreases s.len(),
{
    if s.len() == 0 {
        0
    } else {
        spec_hex_value(s.drop_last()) * 16 + hex_digit_val(s.last())
    }
}

/// Every character is a hexadecimal digit.
pub open spec fn all_hex(s: Seq<char>) -> bool {
    forall|i: int| 0 <= i < s.len() ==> is_hex_digit(s[i])
}

/// The text announces a hexadecimal identifier literal.
pub open spec fn spec_is_hex_literal(s: Seq<char>) -> bool {
    s.len() >= 2 && s[0] == '0' && s[1] == 'x'
}

/// What identifier text parses to: a `0x`-prefixed text is a hexadecimal
/// literal, valid exactly when it has at least one digit, every character
/// after the prefix is a hexadecimal digit, and the value fits in 64
/// bits; any other text is hashed. The registry is never consulted.
pub open spec fn spec_parse_name_id(s: Seq<char>) -> Option<u64> {
    if spec_is_hex_literal(s) {
        let digits = s.skip(2);
        if digits.len() > 0 && all_hex(digits) && spec_hex_value(digits) <= u64::MAX {
            Some(spec_hex_value(digits) as u64)
        } else {
            None
        }
    } else {
        Some(hash40_spec(s))
    }
}

/// Relies on `String::push`: appends one character to the string.
#[verifier::external_body]
fn push_char(s: &mut String, c: char)
    ensures
        final(s)@ == old(s)@.push(c),
{
    s.push(c);
}

fn hex_digit(d: u64) -> (r: char)
    requires
        d < 16,
    ensures
        r == hex_digit_char(d),
{
    if d == 0 {
        '0'
    } else if d == 1 {
        '1'
    } else if d == 2 {
        '2'
    } else if d == 3 {
        '3'
    } else if d == 4 {
        '4'
    } else if d == 5 {
        '5'
    } else if d == 6 {
        '6'
    } else if d == 7 {
        '7'
    } else if d == 8 {
        '8'
    } else if d == 9 {
        '9'
    } else if d == 10 {
        'a'
    } else if d == 11 {
        'b'
    } else if d == 12 {
        'c'
    } else if d == 13 {
        'd'
    } else if d == 14 {
        'e'
    } else {
        'f'
    }
}

/// Render an identifier as a `0x`-prefixed lowercase hexadecimal literal.
pub fn hex_literal(id: u64) -> (r: String)
    ensures
        r@ == seq!['0', 'x'] + spec_hex_digits(id),
{
    let mut digits: Vec<char> = Vec::new();
    let mut v = id;
    proof {
        assert(spec_hex_digits(id) =~= spec_hex_digits(v) + digits@.reverse());
    }
    while v >= 16
        invariant
            spec_hex_digits(id) =~= spec_hex_digits(v) + digits@.reverse(),
        decreases v,
    {
        let ghost digits_before = digits@;
        digits.push(hex_digit(v % 16));
        proof {
            assert(digits@.reverse() =~= seq![hex_digit_char(v % 16)] + digits_before.reverse());
            assert(spec_hex_digits(v) + digits_before.reverse() =~= spec_hex_digits(v / 16) + (seq![
                hex_digit_char(v % 16),
            ] + digits_before.reverse()));
        }
        v = v / 16;
    }
    let ghost digits_before = digits@;
    digits.push(hex_digit(v));
    proof {
        assert(digits@.reverse() =~= seq![hex_digit_char(v)] + digits_before.reverse());
        assert(spec_hex_digits(id) =~= digits@.reverse());
    }
    let mut out = String::new();
    push_char(&mut out, '0');
    push_char(&mut out, 'x');
    proof {
        assert(out@ =~= seq!['0', 'x'] + digits@.reverse().take(0));
    }
    let mut k = digits.len();
    while k > 0
        invariant
            k <= digits@.len(),
            out@ =~= seq!['0', 'x'] + digits@.reverse().take(digits@.len() - k),
        decreases k,
    {
        k = k - 1;
        push_char(&mut out, digits[k]);
        proof {
            assert(digits@.reverse().take(digits@.len() - k) =~= digits@.reverse().take(
                digits@.len() - (k + 1),
            ).push(digits@[k as int]));
        }
    }
    proof {
        assert(digits@.reverse().take(digits@.len() - 0) =~= digits@.reverse());
        assert(out@ =~= seq!['0', 'x'] + spec_hex_digits(id));
    }
    out
}

/// Render an identifier for display: the registry's label when one is
/// registered, else the identifier as a `0x`-prefixed hexadecimal
/// literal. A registry miss is not an error.
pub fn render_name_id(registry: &LabelRegistry, id: u64) -> (r: String)
    ensures
        r@ == spec_render(registry@, id),
{
    match registry.lookup(id) {
        Some(label) => label.clone(),
        None => hex_literal(id),
    }
}

fn hex_digit_value(c: char) -> (r: Option<u64>)
    ensures
        match r {
            Some(d) => is_hex_digit(c) && d == hex_digit_val(c) && d < 16,
            None => !is_hex_digit(c),
        },
{
    let u = c as u32;
    if 48 <= u && u <= 57 {
        Some((u - 48) as u64)
    } else if 97 <= u && u <= 102 {
        Some((u - 97 + 10) as u64)
    } else if 65 <= u && u <= 70 {
        Some((u - 65 + 10) as u64)
    } else {
        None
    }
}

proof fn lemma_hex_value_nonneg(s: Seq<char>)
    ensures
        spec_hex_value(s) >= 0,
    decreases s.len(),
{
    if s.len() > 0 {
        lemma_hex_value_nonneg(s.drop_last());
    }
}

/// The value of a digit string is at least the value of any of its
/// prefixes.
proof fn lemma_hex_value_prefix_le(s: Seq<char>, i: int)
    requires
        0 <= i <= s.len(),
    ensures
        spec_hex_value(s.take(i)) <= spec_hex_value(s),
    decreases s.len() - i,
{
    if i == s.len() {
        assert(s.take(i) =~= s);
    } else {
        lemma_hex_value_prefix_le(s, i + 1);
        let t = s.take(i + 1);
        assert(t.drop_last() =~= s.take(i));
        lemma_hex_value_nonneg(s.take(i));
        assert(spec_hex_value(s.take(i)) <= spec_hex_value(t));
    }
}

/// Parse identifier text: a `0x`-prefixed hexadecimal literal is read as
/// a 64-bit value, failing with `InvalidIdentifierLiteral` exactly when
/// it has no digits, a non-hexadecimal character, or a value too large
/// for 64 bits; any other text is re-hashed, which never fails. The
/// registry's reverse mapping is deliberately not consulted.
pub fn parse_name_id(s: &str) -> (r: Result<u64, SliError>)
    ensures
        r matches Ok(v) ==> spec_parse_name_id(s@) == Some(v),
        r is Err <==> spec_parse_name_id(s@) is None,
        r is Err ==> r == Err::<u64, SliError>(SliError::InvalidIdentifierLiteral),
{
    let n = s.unicode_len();
    if !(n >= 2 && s.get_char(0) == '0' && s.get_char(1) == 'x') {
        return Ok(hash40(s));
    }
    if n == 2 {
        return Err(SliError::InvalidIdentifierLiteral);
    }
    let ghost digits = s@.skip(2);
    let mut acc: u64 = 0;
    let mut i: usize = 2;
    proof {
        assert(s@.subrange(2, 2) =~= digits.take(0));
    }
    while i < n
        invariant
            2 <= i <= n,
            2 < n,
            n == s@.len(),
            spec_is_hex_literal(s@),
            digits == s@.skip(2),
            forall|k: int| 0 <= k < i - 2 ==> is_hex_digit(digits[k]),
            acc == spec_hex_value(digits.take(i - 2)),
        decreases n - i,
    {
        let c = s.get_char(i);
        proof {
            assert(digits[i - 2] == s@[i as int]);
        }
        let d = match hex_digit_value(c) {
            Some(d) => d,
            None => {
                proof {
                    assert(!is_hex_digit(digits[i - 2]));
                    assert(!all_hex(digits));
                }
                return Err(SliError::InvalidIdentifierLiteral);
            },
        };
        if acc > (u64::MAX - d) / 16 {
            proof {
                assert(digits.take(i - 2 + 1).drop_last() =~= digits.take(i - 2));
                assert(digits.take(i - 2 + 1).last() == digits[i - 2]);
                vstd::arithmetic::div_mod::lemma_fundamental_div_mod((u64::MAX - d) as int, 16);
                assert(spec_hex_value(digits.take(i - 2 + 1)) > u64::MAX);
                lemma_hex_value_prefix_le(digits, i - 2 + 1);
            }
            return Err(SliError::InvalidIdentifierLiteral);
        }
        proof {
            vstd::arithmetic::div_mod::lemma_fundamental_div_mod((u64::MAX - d) as int, 16);
            assert(16 * acc + d <= u64::MAX);
            assert(digits.take(i - 2 + 1).drop_last() =~= digits.take(i - 2));
        }
        acc = acc * 16 + d;
        i = i + 1;
    }
    proof {
        assert(digits.take(n - 2) =~= digits);
    }
    Ok(acc)
}

/// Render/parse asymmetry. Rendering an identifier the registry maps to a
/// label yields that label; parsing the label back re-hashes its text
/// instead of consulting the registry, so the parsed identifier equals
/// the rendered one exactly when the label's text hashes to it. Stated
/// for labels that do not themselves announce a hexadecimal literal.
pub proof fn lemma_render_parse_asymmetry(m: Map<u64, Seq<char>>, id: u64)
    requires
        m.contains_key(id),
        !spec_is_hex_literal(m[id]),
    ensures
        spec_render(m, id) == m[id],
        spec_parse_name_id(m[id]) == Some(hash40_spec(m[id])),
        spec_parse_name_id(m[id]) == Some(id) <==> hash40_spec(m[id]) == id,
{
}

}
