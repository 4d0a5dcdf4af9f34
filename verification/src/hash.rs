//! The key under which a record is filed: a stable hash of a path's bytes,
//! written in hexadecimal.

use vstd::prelude::*;
use vstd::string::*;

use crate::text::push_char;

verus! {

/// The offset basis of the 64-bit FNV-1a hash.
pub const FNV_OFFSET: u64 = 0xcbf2_9ce4_8422_2325;

/// The prime of the 64-bit FNV-1a hash.
pub const FNV_PRIME: u64 = 0x0000_0100_0000_01b3;

/// One step of the hash: the state is combined with a byte, then multiplied
/// by the prime, modulo 2^64.
pub open spec fn fnv1a_step(state: u64, byte: u8) -> u64 {
    (((state ^ (byte as u64)) as nat * FNV_PRIME as nat) % 0x1_0000_0000_0000_0000nat) as u64
}

/// The 64-bit FNV-1a hash of a sequence of bytes.
pub open spec fn fnv1a(bytes: Seq<u8>) -> u64
    decreases bytes.len(),
{
    if bytes.len() == 0 {
        FNV_OFFSET
    } else {
        fnv1a_step(fnv1a(bytes.drop_last()), bytes.last())
    }
}

/// The hexadecimal digit of a value below sixteen, in lower case.
pub open spec fn hex_digit(d: nat) -> char {
    if d < 10 {
        ((d + 48) as u8) as char
    } else {
        ((d + 87) as u8) as char
    }
}

/// A number in hexadecimal: lower case, no prefix, no leading zeros.
pub open spec fn hex_text(n: nat) -> Seq<char>
    decreases n,
{
    if n < 16 {
        seq![hex_digit(n)]
    } else {
        hex_text(n / 16).push(hex_digit(n % 16))
    }
}

/// Whether a character is a digit of lower-case hexadecimal.
pub open spec fn is_hex_digit(c: char) -> bool {
    ('0' <= c && c <= '9') || ('a' <= c && c <= 'f')
}

/// A number in hexadecimal has at least one digit, and digits only.
pub proof fn lemma_hex_text_digits(n: nat)
    ensures
        hex_text(n).len() >= 1,
        forall|i: int| 0 <= i < hex_text(n).len() ==> is_hex_digit(#[trigger] hex_text(n)[i]),
    decreases n,
{
    if n >= 16 {
        lemma_hex_text_digits(n / 16);
        let front = hex_text(n / 16);
        assert forall|i: int| 0 <= i < hex_text(n).len() implies is_hex_digit(
            #[trigger] hex_text(n)[i],
        ) by {
            if i < front.len() {
                assert(hex_text(n)[i] == front[i]);
            }
        }
    }
}

/// The bytes of a path: its text in UTF-8.
pub open spec fn path_bytes(path: Seq<char>) -> Seq<u8> {
    vstd::utf8::encode_utf8(path)
}

/// The text whose characters are those of `digits` from last to first.
pub open spec fn backwards(digits: Seq<char>) -> Seq<char> {
    Seq::new(digits.len(), |k: int| digits[digits.len() - 1 - k])
}

/// The hash of a sequence of bytes.
pub fn hash_bytes(bytes: &[u8]) -> (h: u64)
    ensures
        h == fnv1a(bytes@),
{
    let mut h: u64 = FNV_OFFSET;
    let mut i: usize = 0;
    assert(bytes@.take(0) =~= Seq::<u8>::empty());
    while i < bytes.len()
        invariant
            i <= bytes@.len(),
            h == fnv1a(bytes@.take(i as int)),
        decreases bytes@.len() - i,
    {
        assert(bytes@.take(i + 1).drop_last() =~= bytes@.take(i as int));
        h = (h ^ (bytes[i] as u64)).wrapping_mul(FNV_PRIME);
        i += 1;
    }
    assert(bytes@.take(bytes@.len() as int) =~= bytes@);
    h
}

fn digit_char(d: u64) -> (c: char)
    requires
        d < 16,
    ensures
        c == hex_digit(d as nat),
{
    if d < 10 {
        ((d + 48) as u8) as char
    } else {
        ((d + 87) as u8) as char
    }
}

/// A number written in hexadecimal.
pub fn to_hex(n: u64) -> (out: String)
    ensures
        out@ == hex_text(n as nat),
{
    let mut digits: Vec<char> = Vec::new();
    digits.push(digit_char(n % 16));
    let mut rest: u64 = n / 16;
    assert(backwards(digits@) =~= seq![hex_digit((n % 16) as nat)]);
    while rest > 0
        invariant
            digits@.len() >= 1,
            hex_text(n as nat) == if rest > 0 {
                hex_text(rest as nat) + backwards(digits@)
            } else {
                backwards(digits@)
            },
        decreases rest,
    {
        let ghost before = digits@;
        let d = digit_char(rest % 16);
        digits.push(d);
        assert(backwards(digits@) =~= seq![d] + backwards(before));
        proof {
            if rest >= 16 {
                assert(hex_text(rest as nat) + backwards(before) =~= hex_text((rest / 16) as nat)
                    + backwards(digits@));
            } else {
                assert(hex_text(rest as nat) + backwards(before) =~= backwards(digits@));
            }
        }
        rest = rest / 16;
    }
    let mut out = String::new();
    let mut left: usize = digits.len();
    while left > 0
        invariant
            left <= digits@.len(),
            out@ == backwards(digits@).take(digits@.len() - left),
        decreases left,
    {
        left -= 1;
        push_char(&mut out, digits[left]);
        assert(backwards(digits@).take(digits@.len() - left) =~= backwards(digits@).take(
            digits@.len() - left - 1,
        ).push(digits@[left as int]));
    }
    assert(backwards(digits@).take(digits@.len() as int) =~= backwards(digits@));
    out
}

/// The name under which the record of the environment at `value` is filed:
/// the hash of the path's bytes, in hexadecimal.
pub fn compute_hash(value: &str) -> (name: String)
    ensures
        name@ == hex_text(fnv1a(path_bytes(value@)) as nat),
{
    to_hex(hash_bytes(value.as_bytes()))
}

} // verus!
