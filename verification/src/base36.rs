//! Base-36 identifiers: strings over `0-9a-z`, most significant symbol first.

use vstd::prelude::*;

verus! {

/// The value of one symbol. Letters count 10 to 35 in either case; anything
/// else is no symbol.
pub open spec fn symbol_value(c: char) -> Option<nat> {
    let u = c as int;
    if '0' as int <= u <= '9' as int {
        Some((u - '0' as int) as nat)
    } else if 'a' as int <= u <= 'z' as int {
        Some((u - 'a' as int + 10) as nat)
    } else if 'A' as int <= u <= 'Z' as int {
        Some((u - 'A' as int + 10) as nat)
    } else {
        None
    }
}

/// Every position holds a symbol of the alphabet.
pub open spec fn well_formed(s: Seq<char>) -> bool {
    forall|i: int| 0 <= i < s.len() ==> (#[trigger] symbol_value(s[i])) is Some
}

/// The number a string spells: the sum of `symbol * 36^i`, counting `i` from
/// the last symbol. A position that holds no symbol counts as zero.
pub open spec fn value_of(s: Seq<char>) -> nat
    decreases s.len(),
{
    if s.len() == 0 {
        0
    } else {
        36 * value_of(s.drop_last()) + match symbol_value(s.last()) {
            Some(d) => d,
            None => 0,
        }
    }
}

/// Decoding into an integer type whose largest value is `max`.
pub open spec fn decode(s: Seq<char>, max: nat) -> Option<nat> {
    if well_formed(s) && value_of(s) <= max {
        Some(value_of(s))
    } else {
        None
    }
}

/// The lower-case symbol for a digit below 36.
pub open spec fn digit_symbol(d: nat) -> char {
    if d < 10 {
        ('0' as nat + d) as char
    } else {
        ('a' as nat + d - 10) as char
    }
}

/// The canonical spelling of a number: lower case, no leading zero, and `"0"`
/// for zero.
pub open spec fn encode(n: nat) -> Seq<char>
    decreases n,
{
    if n < 36 {
        seq![digit_symbol(n)]
    } else {
        encode(n / 36).push(digit_symbol(n % 36))
    }
}

/// A prefix never spells more than the whole string.
pub proof fn lemma_value_of_prefix(s: Seq<char>, k: int)
    requires
        0 <= k <= s.len(),
    ensures
        value_of(s.take(k)) <= value_of(s),
    decreases s.len() - k,
{
    if k < s.len() {
        lemma_value_of_prefix(s, k + 1);
        assert(s.take(k + 1).drop_last() =~= s.take(k));
    } else {
        assert(s.take(k) =~= s);
    }
}

/// The value of one symbol, as the decoder reads it.
fn symbol_digit(c: char) -> (d: Option<u8>)
    ensures
        match d {
            Some(v) => symbol_value(c) == Some(v as nat),
            None => symbol_value(c) is None,
        },
{
    let u: u32 = c as u32;
    if '0' as u32 <= u && u <= '9' as u32 {
        Some((u - '0' as u32) as u8)
    } else if 'a' as u32 <= u && u <= 'z' as u32 {
        Some((u - 'a' as u32 + 10) as u8)
    } else if 'A' as u32 <= u && u <= 'Z' as u32 {
        Some((u - 'A' as u32 + 10) as u8)
    } else {
        None
    }
}

/// Decodes `val` into a number no larger than `max`. Fails on a character
/// outside the alphabet and on a value above `max`; the empty string is zero.
pub fn decode_bounded(val: &str, max: u64) -> (r: Option<u64>)
    ensures
        match r {
            Some(v) => decode(val@, max as nat) == Some(v as nat),
            None => decode(val@, max as nat) is None,
        },
{
    let mut acc: u64 = 0;
    for c in it: val.chars()
        invariant
            it.seq() == val@,
            acc <= max,
            acc == value_of(val@.take(it.index() as int)),
            well_formed(val@.take(it.index() as int)),
    {
        let ghost k: int = it.index() as int;
        proof {
            assert(val@.take(k + 1).drop_last() =~= val@.take(k));
            assert(val@.take(k + 1).last() == c);
        }
        match symbol_digit(c) {
            None => {
                assert(symbol_value(val@[k]) is None);
                return None;
            },
            Some(d) => {
                let next: u128 = acc as u128 * 36 + d as u128;
                if next > max as u128 {
                    proof {
                        lemma_value_of_prefix(val@, k + 1);
                    }
                    return None;
                }
                acc = next as u64;
            },
        }
    }
    proof {
        assert(val@.take(val@.len() as int) =~= val@);
    }
    Some(acc)
}

/// Decodes an identifier into a `u32`.
pub fn b36_to(val: &str) -> (r: Option<u32>)
    ensures
        match r {
            Some(v) => decode(val@, u32::MAX as nat) == Some(v as nat),
            None => decode(val@, u32::MAX as nat) is None,
        },
{
    match decode_bounded(val, u32::MAX as u64) {
        Some(v) => Some(v as u32),
        None => None,
    }
}

/// Decodes an identifier into a `usize`.
pub fn b36_to_usize(val: &str) -> (r: Option<usize>)
    ensures
        match r {
            Some(v) => decode(val@, usize::MAX as nat) == Some(v as nat),
            None => decode(val@, usize::MAX as nat) is None,
        },
{
    match decode_bounded(val, usize::MAX as u64) {
        Some(v) => Some(v as usize),
        None => None,
    }
}

/// Spells `n` in base 36 by `radix_fmt::radix_36(n).to_string()`. Trusted:
/// that crate writes the digits of `n` most significant first, the letters
/// in lower case, and a single `0` for zero, which is `encode`.
#[verifier::external_body]
pub(crate) fn to_base36(n: u64) -> (s: String)
    ensures
        s@ == encode(n as nat),
{
    radix_fmt::radix_36(n).to_string()
}

/// What `encode` writes is well formed and spells the number it was given.
pub proof fn lemma_encode_spells(n: nat)
    ensures
        well_formed(encode(n)),
        value_of(encode(n)) == n,
        encode(n).len() >= 1,
    decreases n,
{
    if n < 36 {
        let s = encode(n);
        assert(s.drop_last() =~= Seq::<char>::empty());
        assert(value_of(s.drop_last()) == 0);
    } else {
        lemma_encode_spells(n / 36);
        let head = encode(n / 36);
        let s = encode(n);
        assert(s.drop_last() =~= head);
        assert(s.last() == digit_symbol(n % 36));
        assert forall|i: int| 0 <= i < s.len() implies (#[trigger] symbol_value(s[i])) is Some by {
            if i < head.len() {
                assert(s[i] == head[i]);
            }
        }
    }
}

/// Decoding what was encoded gives the number back, for every number of the
/// integer type decoded into.
pub proof fn lemma_decode_encode(i: nat, max: nat)
    requires
        i <= max,
    ensures
        decode(encode(i), max) == Some(i),
{
    lemma_encode_spells(i);
}

/// Two numbers with one spelling are one number.
pub proof fn lemma_encode_injective(a: nat, b: nat)
    requires
        encode(a) == encode(b),
    ensures
        a == b,
{
    lemma_encode_spells(a);
    lemma_encode_spells(b);
}

} // verus!
