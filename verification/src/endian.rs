//! Big-endian spelling of unsigned numbers in two, four and eight bytes.

use vstd::arithmetic::div_mod::{
    lemma_div_denominator, lemma_fundamental_div_mod, lemma_fundamental_div_mod_converse,
};
use vstd::prelude::*;

verus! {

/// The number that two bytes spell in big-endian order.
pub open spec fn be16_value(s: Seq<u8>) -> nat
    recommends
        s.len() == 2,
{
    (s[0] as nat) * 256 + (s[1] as nat)
}

/// The two bytes that spell `n` in big-endian order.
pub open spec fn be16_bytes(n: nat) -> Seq<u8>
    recommends
        n <= u16::MAX,
{
    seq![(n / 256) as u8, (n % 256) as u8]
}

/// The number that four bytes spell in big-endian order.
pub open spec fn be32_value(s: Seq<u8>) -> nat
    recommends
        s.len() == 4,
{
    (s[0] as nat) * 16777216 + (s[1] as nat) * 65536 + (s[2] as nat) * 256 + (s[3] as nat)
}

/// The four bytes that spell `n` in big-endian order.
pub open spec fn be32_bytes(n: nat) -> Seq<u8>
    recommends
        n <= u32::MAX,
{
    seq![
        (n / 16777216) as u8,
        (n / 65536 % 256) as u8,
        (n / 256 % 256) as u8,
        (n % 256) as u8,
    ]
}

/// The number that eight bytes spell in big-endian order.
pub open spec fn be64_value(s: Seq<u8>) -> nat
    recommends
        s.len() == 8,
{
    be32_value(s.subrange(0, 4)) * 4294967296 + be32_value(s.subrange(4, 8))
}

/// The eight bytes that spell `n` in big-endian order.
pub open spec fn be64_bytes(n: nat) -> Seq<u8>
    recommends
        n <= u64::MAX,
{
    be32_bytes(n / 4294967296) + be32_bytes(n % 4294967296)
}

/// Spelling a number in two bytes and reading it back gives the number.
pub proof fn lemma_be16_roundtrip(n: nat)
    requires
        n <= u16::MAX,
    ensures
        be16_bytes(n).len() == 2,
        be16_value(be16_bytes(n)) == n,
{
}

/// Two bytes are the spelling of the number they spell.
pub proof fn lemma_be16_unique(s: Seq<u8>)
    requires
        s.len() == 2,
    ensures
        be16_value(s) <= u16::MAX,
        be16_bytes(be16_value(s)) == s,
{
    assert(be16_bytes(be16_value(s)) =~= s);
}

/// Spelling a number in four bytes and reading it back gives the number.
pub proof fn lemma_be32_roundtrip(n: nat)
    requires
        n <= u32::MAX,
    ensures
        be32_bytes(n).len() == 4,
        be32_value(be32_bytes(n)) == n,
{
    let m = n as int;
    lemma_fundamental_div_mod(m, 256);
    lemma_fundamental_div_mod(m / 256, 256);
    lemma_fundamental_div_mod(m / 65536, 256);
    lemma_div_denominator(m, 256, 256);
    lemma_div_denominator(m, 65536, 256);
    assert(m / 256 / 256 == m / 65536);
    assert(m / 65536 / 256 == m / 16777216);
}

/// Four bytes are the spelling of the number they spell.
pub proof fn lemma_be32_unique(s: Seq<u8>)
    requires
        s.len() == 4,
    ensures
        be32_value(s) <= u32::MAX,
        be32_bytes(be32_value(s)) == s,
{
    let a = s[0] as int;
    let b = s[1] as int;
    let c = s[2] as int;
    let d = s[3] as int;
    let n = be32_value(s) as int;
    lemma_fundamental_div_mod_converse(n, 16777216, a, b * 65536 + c * 256 + d);
    lemma_fundamental_div_mod_converse(n, 65536, a * 256 + b, c * 256 + d);
    lemma_fundamental_div_mod_converse(a * 256 + b, 256, a, b);
    lemma_fundamental_div_mod_converse(n, 256, a * 65536 + b * 256 + c, d);
    lemma_fundamental_div_mod_converse(a * 65536 + b * 256 + c, 256, a * 256 + b, c);
    assert(be32_bytes(be32_value(s)) =~= s);
}

/// Spelling a number in eight bytes and reading it back gives the number.
pub proof fn lemma_be64_roundtrip(n: nat)
    requires
        n <= u64::MAX,
    ensures
        be64_bytes(n).len() == 8,
        be64_value(be64_bytes(n)) == n,
{
    let hi = n / 4294967296;
    let lo = n % 4294967296;
    lemma_be32_roundtrip(hi);
    lemma_be32_roundtrip(lo);
    assert(be64_bytes(n).subrange(0, 4) =~= be32_bytes(hi));
    assert(be64_bytes(n).subrange(4, 8) =~= be32_bytes(lo));
}

/// Eight bytes are the spelling of the number they spell.
pub proof fn lemma_be64_unique(s: Seq<u8>)
    requires
        s.len() == 8,
    ensures
        be64_value(s) <= u64::MAX,
        be64_bytes(be64_value(s)) == s,
{
    let hi = s.subrange(0, 4);
    let lo = s.subrange(4, 8);
    lemma_be32_unique(hi);
    lemma_be32_unique(lo);
    let n = be64_value(s);
    assert(n / 4294967296 == be32_value(hi));
    assert(n % 4294967296 == be32_value(lo));
    assert(be64_bytes(n) =~= s);
}

} // verus!
