//! Unsigned decimal numbers in ASCII.

use vstd::prelude::*;

verus! {

/// An ASCII digit `0`-`9`.
pub open spec fn is_digit(b: u8) -> bool {
    0x30 <= b <= 0x39
}

/// The end of the run of digits that starts at `i`.
pub open spec fn digits_end(s: Seq<u8>, i: int) -> int
    decreases s.len() - i,
{
    if 0 <= i < s.len() && is_digit(s[i]) {
        digits_end(s, i + 1)
    } else {
        i
    }
}

/// The number that the first `n` bytes of `s` spell in decimal.
pub open spec fn digits_value(s: Seq<u8>, n: int) -> int
    decreases n,
{
    if n <= 0 {
        0
    } else {
        digits_value(s, n - 1) * 10 + (s[n - 1] - 0x30)
    }
}

/// The unsigned decimal number at the start of `s`, as `winnow`'s `dec_uint`
/// reads it into a `u16`: either a single `0`, or a digit `1`-`9` followed by
/// every digit after it, whose value must fit in 16 bits. The result is the
/// number of bytes read and the value.
pub open spec fn decimal_prefix(s: Seq<u8>) -> Option<(int, u16)> {
    if s.len() > 0 && s[0] == 0x30 {
        Some((1, 0))
    } else if s.len() > 0 && 0x31 <= s[0] <= 0x39 {
        let n = digits_end(s, 0);
        if digits_value(s, n) <= 0xFFFF {
            Some((n, digits_value(s, n) as u16))
        } else {
            None
        }
    } else {
        None
    }
}

/// The run of digits from `i` stays within `s`.
pub proof fn lemma_digits_end(s: Seq<u8>, i: int)
    requires
        0 <= i <= s.len(),
    ensures
        i <= digits_end(s, i) <= s.len(),
    decreases s.len() - i,
{
    if 0 <= i < s.len() && is_digit(s[i]) {
        lemma_digits_end(s, i + 1);
    }
}

/// A decimal number takes at least one byte, and no more than there are.
pub proof fn lemma_decimal_prefix_len(s: Seq<u8>)
    ensures
        decimal_prefix(s) matches Some((n, v)) ==> 1 <= n <= s.len(),
{
    if s.len() > 0 && 0x31 <= s[0] <= 0x39 {
        lemma_digits_end(s, 1);
    }
}

/// `winnow::ascii::dec_uint::<_, u16, _>` on a complete byte input.
///
/// Claimed of the outside function (`winnow` 0.7, `ascii/mod.rs`): it reads
/// `one_of('1'..='9')` then `digit0`, or else a single `0`, and keeps the
/// value when `u16`'s `FromStr` accepts those digits, that is when it fits in
/// 16 bits; otherwise it fails. The result gives the number of bytes left
/// after the number, and the value.
#[verifier::external_body]
fn dec_uint_u16(bytes: &[u8]) -> (res: Option<(usize, u16)>)
    ensures
        match res {
            Some((rest, v)) => rest <= bytes@.len() && decimal_prefix(bytes@) == Some(
                ((bytes@.len() - rest) as int, v),
            ),
            None => decimal_prefix(bytes@) is None,
        },
{
    let mut parser = winnow::ascii::dec_uint::<&[u8], u16, winnow::error::ContextError>;
    match winnow::Parser::parse_peek(&mut parser, bytes) {
        Ok((rest, value)) => Some((rest.len(), value)),
        Err(_) => None,
    }
}

/// The decimal number that starts at `pos` in `s`, with the offset just
/// after it.
pub open spec fn spec_decimal_at(s: Seq<u8>, pos: int) -> Option<(int, u16)> {
    if 0 <= pos <= s.len() {
        match decimal_prefix(s.subrange(pos, s.len() as int)) {
            Some((n, v)) => Some((pos + n, v)),
            None => None,
        }
    } else {
        None
    }
}

/// Reads the decimal number that starts at `pos` in `s`.
pub fn decimal_at(s: &[u8], pos: usize) -> (res: Option<(usize, u16)>)
    ensures
        match res {
            Some((p, v)) => spec_decimal_at(s@, pos as int) == Some((p as int, v)) && pos < p
                <= s@.len(),
            None => spec_decimal_at(s@, pos as int) is None,
        },
{
    if pos > s.len() {
        return None;
    }
    let rest = vstd::slice::slice_subrange(s, pos, s.len());
    proof {
        lemma_decimal_prefix_len(rest@);
    }
    match dec_uint_u16(rest) {
        Some((left, v)) => Some((s.len() - left, v)),
        None => None,
    }
}

} // verus!
