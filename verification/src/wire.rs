//! Item heads of the binary object encoding that Bonk messages use.
//!
//! Every item on the wire starts with a head: one byte that carries the
//! major type in its upper three bits, followed by the item's argument in
//! the shortest of five forms. The heads themselves are written and read by
//! `ciborium_ll`; this module states what those bytes are and proves that
//! writing and reading undo each other.

use crate::endian::{
    be16_bytes, be16_value, be32_bytes, be32_value, be64_bytes, be64_value, lemma_be16_roundtrip,
    lemma_be16_unique, lemma_be32_roundtrip, lemma_be32_unique, lemma_be64_roundtrip,
    lemma_be64_unique,
};
use ciborium_ll::{Decoder, Encoder, Header};
use vstd::prelude::*;
use vstd::slice::slice_subrange;

verus! {

/// The head of an item, for the five kinds of item that messages are made of.
#[derive(Debug, Clone, Copy, PartialEq, Eq)]
pub enum Head {
    /// An unsigned number.
    Positive(u64),
    /// A byte string of the given length.
    Bytes(usize),
    /// A text string of the given length in bytes.
    Text(usize),
    /// An array of the given number of items.
    Array(usize),
    /// A map of the given number of pairs.
    Pairs(usize),
}

impl Head {
    /// The major type, as the upper three bits of the first byte hold it.
    pub open spec fn major(self) -> nat {
        match self {
            Head::Positive(_) => 0,
            Head::Bytes(_) => 2,
            Head::Text(_) => 3,
            Head::Array(_) => 4,
            Head::Pairs(_) => 5,
        }
    }

    /// The argument: the number itself, or the length.
    pub open spec fn argument(self) -> nat {
        match self {
            Head::Positive(n) => n as nat,
            Head::Bytes(n) => n as nat,
            Head::Text(n) => n as nat,
            Head::Array(n) => n as nat,
            Head::Pairs(n) => n as nat,
        }
    }
}

/// The bytes of a head with the given major type and argument, the argument
/// in the shortest form that holds it.
#[verifier::opaque]
pub open spec fn head_encoding(major: nat, arg: nat) -> Seq<u8>
    recommends
        major < 8,
        arg <= u64::MAX,
{
    if arg < 24 {
        seq![(major * 32 + arg) as u8]
    } else if arg <= 0xff {
        seq![(major * 32 + 24) as u8, arg as u8]
    } else if arg <= 0xffff {
        seq![(major * 32 + 25) as u8] + be16_bytes(arg)
    } else if arg <= 0xffff_ffff {
        seq![(major * 32 + 26) as u8] + be32_bytes(arg)
    } else {
        seq![(major * 32 + 27) as u8] + be64_bytes(arg)
    }
}

/// The bytes of `head` on the wire.
pub open spec fn head_bytes(head: Head) -> Seq<u8> {
    head_encoding(head.major(), head.argument())
}

/// The head with the given major type and argument, where messages use that
/// major type and the argument fits.
pub open spec fn head_of(major: nat, arg: nat, used: nat) -> Option<(Head, nat)> {
    if major == 0 {
        Some((Head::Positive(arg as u64), used))
    } else if arg > usize::MAX {
        None
    } else if major == 2 {
        Some((Head::Bytes(arg as usize), used))
    } else if major == 3 {
        Some((Head::Text(arg as usize), used))
    } else if major == 4 {
        Some((Head::Array(arg as usize), used))
    } else if major == 5 {
        Some((Head::Pairs(arg as usize), used))
    } else {
        None
    }
}

/// What a reader finds at the start of `s`: a head and the number of bytes
/// it takes. The argument may stand in a longer form than it needs. Nothing
/// is found where the bytes are cut short, where the argument's form is
/// reserved or of indefinite length, or where the major type is none of the
/// five that messages use.
#[verifier::opaque]
pub open spec fn parse_head(s: Seq<u8>) -> Option<(Head, nat)> {
    if s.len() == 0 {
        None
    } else {
        let major = (s[0] / 32) as nat;
        let form = s[0] % 32;
        if form < 24 {
            head_of(major, form as nat, 1)
        } else if form == 24 && s.len() >= 2 {
            head_of(major, s[1] as nat, 2)
        } else if form == 25 && s.len() >= 3 {
            head_of(major, be16_value(s.subrange(1, 3)), 3)
        } else if form == 26 && s.len() >= 5 {
            head_of(major, be32_value(s.subrange(1, 5)), 5)
        } else if form == 27 && s.len() >= 9 {
            head_of(major, be64_value(s.subrange(1, 9)), 9)
        } else {
            None
        }
    }
}

/// The head at the start of `s` where it stands in its shortest form, which
/// is the only form that a writer produces.
pub open spec fn parse_short_head(s: Seq<u8>) -> Option<(Head, nat)> {
    match parse_head(s) {
        Some((head, used)) => if used == head_bytes(head).len() {
            Some((head, used))
        } else {
            None
        },
        None => None,
    }
}

/// A head takes between one and nine bytes.
pub proof fn lemma_head_len(head: Head)
    ensures
        1 <= head_bytes(head).len() <= 9,
{
    reveal(head_encoding);
    let arg = head.argument();
    if arg > 0xffff_ffff {
        lemma_be64_roundtrip(arg);
    }
}

/// Reading what was written gives the head back, whatever follows it.
pub proof fn lemma_parse_of_head(head: Head, rest: Seq<u8>)
    ensures
        parse_short_head(head_bytes(head) + rest) == Some((head, head_bytes(head).len())),
{
    reveal(head_encoding);
    reveal(parse_head);
    let major = head.major();
    let arg = head.argument();
    let e = head_bytes(head);
    let s = e + rest;
    assert(s[0] == e[0]);
    if arg < 24 {
    } else if arg <= 0xff {
        assert(s[1] == e[1]);
    } else if arg <= 0xffff {
        lemma_be16_roundtrip(arg);
        assert(s.subrange(1, 3) =~= be16_bytes(arg));
    } else if arg <= 0xffff_ffff {
        lemma_be32_roundtrip(arg);
        assert(s.subrange(1, 5) =~= be32_bytes(arg));
    } else {
        lemma_be64_roundtrip(arg);
        assert(s.subrange(1, 9) =~= be64_bytes(arg));
    }
}

/// A head built from a major type and an argument has that major type and
/// that argument.
proof fn lemma_head_of(major: nat, arg: nat, used: nat)
    requires
        arg <= u64::MAX,
        head_of(major, arg, used) is Some,
    ensures
        head_of(major, arg, used)->Some_0.0.major() == major,
        head_of(major, arg, used)->Some_0.0.argument() == arg,
        head_of(major, arg, used)->Some_0.1 == used,
{
}

/// A head that is read in its shortest form stands on the wire exactly as a
/// writer would have put it.
pub proof fn lemma_head_of_parse(s: Seq<u8>)
    requires
        parse_short_head(s) is Some,
    ensures
        parse_short_head(s)->Some_0.1 <= s.len(),
        s.subrange(0, parse_short_head(s)->Some_0.1 as int) == head_bytes(
            parse_short_head(s)->Some_0.0,
        ),
{
    reveal(head_encoding);
    reveal(parse_head);
    let (head, used) = parse_short_head(s)->Some_0;
    let major = (s[0] / 32) as nat;
    let form = s[0] % 32;
    assert(s[0] == major * 32 + form);
    if form < 24 {
        lemma_head_of(major, form as nat, 1);
        assert(s.subrange(0, 1) =~= head_encoding(major, form as nat));
    } else if form == 24 {
        lemma_head_of(major, s[1] as nat, 2);
        assert(head_encoding(major, s[1] as nat).len() == 2);
        assert(s.subrange(0, 2) =~= head_encoding(major, s[1] as nat));
    } else if form == 25 {
        let tail = s.subrange(1, 3);
        lemma_be16_unique(tail);
        let arg = be16_value(tail);
        lemma_head_of(major, arg, 3);
        assert(head_encoding(major, arg).len() == 3 ==> 0xff < arg <= 0xffff) by {
            if arg > 0xffff_ffff {
                lemma_be64_roundtrip(arg);
            }
        }
        assert(s.subrange(0, 3) =~= seq![s[0]] + tail);
    } else if form == 26 {
        let tail = s.subrange(1, 5);
        lemma_be32_unique(tail);
        let arg = be32_value(tail);
        lemma_head_of(major, arg, 5);
        assert(head_encoding(major, arg).len() == 5 ==> 0xffff < arg <= 0xffff_ffff) by {
            if arg > 0xffff_ffff {
                lemma_be64_roundtrip(arg);
            }
        }
        assert(s.subrange(0, 5) =~= seq![s[0]] + tail);
    } else {
        let tail = s.subrange(1, 9);
        lemma_be64_unique(tail);
        let arg = be64_value(tail);
        lemma_head_of(major, arg, 9);
        assert(head_encoding(major, arg).len() == 9 ==> 0xffff_ffff < arg);
        assert(s.subrange(0, 9) =~= seq![s[0]] + tail);
    }
}

/// Appends the bytes of `head` to `out` by `ciborium_ll::Encoder::push` on a
/// definite-length header of the same kind.
///
/// Claimed of that function: it writes one byte holding the major type
/// above the argument's form, then the argument big-endian in the fewest of
/// 0, 1, 2, 4 or 8 bytes, and writing into a vector does not fail.
#[verifier::external_body]
pub(crate) fn push_head(out: &mut Vec<u8>, head: Head)
    ensures
        final(out)@ == old(out)@ + head_bytes(head),
{
    let header = match head {
        Head::Positive(n) => Header::Positive(n),
        Head::Bytes(n) => Header::Bytes(Some(n)),
        Head::Text(n) => Header::Text(Some(n)),
        Head::Array(n) => Header::Array(Some(n)),
        Head::Pairs(n) => Header::Map(Some(n)),
    };
    let _ = Encoder::from(out).push(header);
}

/// Reads the head at the start of `input` by `ciborium_ll::Decoder::pull`,
/// and reports how many bytes it took by `Decoder::offset`.
///
/// Claimed of those functions: the first byte gives the major type and the
/// argument's form; the argument is that form itself below 24, else the
/// next 1, 2, 4 or 8 bytes big-endian; a length that does not fit `usize`,
/// a reserved form and missing bytes are errors. Negative numbers, tags,
/// simple values, floats, breaks and indefinite lengths come back as
/// headers that messages never use, and are reported as no head here.
#[verifier::external_body]
fn pull_head(input: &[u8]) -> (r: Option<(Head, usize)>)
    ensures
        match parse_head(input@) {
            Some((head, used)) => r is Some && r->Some_0.0 == head && r->Some_0.1 == used,
            None => r is None,
        },
{
    let mut decoder = Decoder::from(input);
    let head = match decoder.pull() {
        Ok(Header::Positive(n)) => Head::Positive(n),
        Ok(Header::Bytes(Some(n))) => Head::Bytes(n),
        Ok(Header::Text(Some(n))) => Head::Text(n),
        Ok(Header::Array(Some(n))) => Head::Array(n),
        Ok(Header::Map(Some(n))) => Head::Pairs(n),
        _ => return None,
    };
    Some((head, decoder.offset()))
}

/// The number of bytes that `head` takes on the wire.
pub fn head_len(head: Head) -> (n: usize)
    ensures
        n == head_bytes(head).len(),
{
    let arg: u64 = match head {
        Head::Positive(n) => n,
        Head::Bytes(n) => n as u64,
        Head::Text(n) => n as u64,
        Head::Array(n) => n as u64,
        Head::Pairs(n) => n as u64,
    };
    proof {
        reveal(head_encoding);
        lemma_head_len(head);
        if arg > 0xffff_ffff {
            lemma_be64_roundtrip(arg as nat);
        }
    }
    if arg < 24 {
        1
    } else if arg <= 0xff {
        2
    } else if arg <= 0xffff {
        3
    } else if arg <= 0xffff_ffff {
        5
    } else {
        9
    }
}

/// Reads the head that stands at `pos` in its shortest form.
///
/// Returns the head and the position after it, or nothing where no head of
/// the five kinds stands there in the form a writer gives it.
pub fn read_head(input: &[u8], pos: usize) -> (r: Option<(Head, usize)>)
    requires
        pos <= input@.len(),
    ensures
        match parse_short_head(input@.skip(pos as int)) {
            Some((head, used)) => r is Some && r->Some_0.0 == head && r->Some_0.1 == pos + used
                && pos + used <= input@.len(),
            None => r is None,
        },
{
    let tail = slice_subrange(input, pos, input.len());
    assert(tail@ =~= input@.skip(pos as int));
    match pull_head(tail) {
        Some((head, used)) => {
            if used == head_len(head) {
                proof {
                    lemma_head_of_parse(tail@);
                }
                Some((head, pos + used))
            } else {
                None
            }
        },
        None => None,
    }
}

} // verus!
