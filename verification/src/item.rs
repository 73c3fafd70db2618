//! The items that messages are built from: text strings, byte strings and
//! arrays of small numbers, each a head followed by its content.

use crate::wire::{
    head_bytes, head_encoding, lemma_head_of_parse, lemma_parse_of_head,
    parse_short_head, read_head, push_head, Head,
};
use vstd::prelude::*;
use vstd::slice::{slice_subrange, slice_to_vec};
use vstd::utf8::{
    decode_utf8, decode_utf8_encode_utf8, encode_utf8, encode_utf8_decode_utf8,
    encode_utf8_valid_utf8, valid_utf8,
};

verus! {

/// A text string on the wire: a text head with the length of the UTF-8
/// form, then the UTF-8 bytes.
pub open spec fn text_item(chars: Seq<char>) -> Seq<u8> {
    head_encoding(3, encode_utf8(chars).len()) + encode_utf8(chars)
}

/// A byte string on the wire: a bytes head with the length, then the bytes.
pub open spec fn bytes_item(bytes: Seq<u8>) -> Seq<u8> {
    head_encoding(2, bytes.len()) + bytes
}

/// The text string at the start of `s` and the number of bytes it takes.
pub open spec fn parse_text(s: Seq<u8>) -> Option<(Seq<char>, nat)> {
    match parse_short_head(s) {
        Some((Head::Text(n), used)) => {
            let end = used + n as nat;
            if end <= s.len() && valid_utf8(s.subrange(used as int, end as int)) {
                Some((decode_utf8(s.subrange(used as int, end as int)), end))
            } else {
                None
            }
        },
        _ => None,
    }
}

/// The byte string at the start of `s` and the number of bytes it takes.
pub open spec fn parse_bytes(s: Seq<u8>) -> Option<(Seq<u8>, nat)> {
    match parse_short_head(s) {
        Some((Head::Bytes(n), used)) => {
            let end = used + n as nat;
            if end <= s.len() {
                Some((s.subrange(used as int, end as int), end))
            } else {
                None
            }
        },
        _ => None,
    }
}

/// Whether `s` starts with the text string `key`, and how many bytes that
/// string takes.
pub open spec fn parse_key(s: Seq<u8>, key: Seq<char>) -> Option<nat> {
    if text_item(key).is_prefix_of(s) {
        Some(text_item(key).len())
    } else {
        None
    }
}

/// Reading a written text string gives the text back, whatever follows it.
pub proof fn lemma_parse_of_text(chars: Seq<char>, rest: Seq<u8>)
    requires
        encode_utf8(chars).len() <= usize::MAX,
    ensures
        parse_text(text_item(chars) + rest) == Some((chars, text_item(chars).len())),
{
    let utf8 = encode_utf8(chars);
    let head = Head::Text(utf8.len() as usize);
    let s = text_item(chars) + rest;
    assert(s =~= head_bytes(head) + (utf8 + rest));
    lemma_parse_of_head(head, utf8 + rest);
    let used = head_bytes(head).len();
    assert(s.subrange(used as int, (used + utf8.len()) as int) =~= utf8);
    encode_utf8_valid_utf8(chars);
    encode_utf8_decode_utf8(chars);
}

/// A text string that is read stands on the wire exactly as a writer would
/// have put it.
pub proof fn lemma_text_of_parse(s: Seq<u8>)
    requires
        parse_text(s) is Some,
    ensures
        parse_text(s)->Some_0.1 <= s.len(),
        s.subrange(0, parse_text(s)->Some_0.1 as int) == text_item(parse_text(s)->Some_0.0),
        encode_utf8(parse_text(s)->Some_0.0).len() <= usize::MAX,
{
    let (chars, end) = parse_text(s)->Some_0;
    let (head, used) = parse_short_head(s)->Some_0;
    lemma_head_of_parse(s);
    let body = s.subrange(used as int, end as int);
    decode_utf8_encode_utf8(body);
    assert(s.subrange(0, end as int) =~= s.subrange(0, used as int) + body);
}

/// Reading a written byte string gives the bytes back, whatever follows.
pub proof fn lemma_parse_of_bytes(bytes: Seq<u8>, rest: Seq<u8>)
    requires
        bytes.len() <= usize::MAX,
    ensures
        parse_bytes(bytes_item(bytes) + rest) == Some((bytes, bytes_item(bytes).len())),
{
    let head = Head::Bytes(bytes.len() as usize);
    let s = bytes_item(bytes) + rest;
    assert(s =~= head_bytes(head) + (bytes + rest));
    lemma_parse_of_head(head, bytes + rest);
    let used = head_bytes(head).len();
    assert(s.subrange(used as int, (used + bytes.len()) as int) =~= bytes);
}

/// A byte string that is read stands on the wire exactly as a writer would
/// have put it.
pub proof fn lemma_bytes_of_parse(s: Seq<u8>)
    requires
        parse_bytes(s) is Some,
    ensures
        parse_bytes(s)->Some_0.1 <= s.len(),
        s.subrange(0, parse_bytes(s)->Some_0.1 as int) == bytes_item(parse_bytes(s)->Some_0.0),
        parse_bytes(s)->Some_0.0.len() <= usize::MAX,
{
    let (bytes, end) = parse_bytes(s)->Some_0;
    let (head, used) = parse_short_head(s)->Some_0;
    lemma_head_of_parse(s);
    assert(s.subrange(0, end as int) =~= s.subrange(0, used as int) + bytes);
}

/// Two different texts never start the same bytes: where the text string
/// `written` stands, the key `other` is not found.
pub proof fn lemma_keys_differ(written: Seq<char>, other: Seq<char>, rest: Seq<u8>)
    requires
        written != other,
        encode_utf8(written).len() <= usize::MAX,
        encode_utf8(other).len() <= usize::MAX,
    ensures
        parse_key(text_item(written) + rest, other) is None,
{
    let s = text_item(written) + rest;
    if text_item(other).is_prefix_of(s) {
        let n = text_item(other).len();
        assert(s =~= text_item(other) + s.skip(n as int));
        lemma_parse_of_text(written, rest);
        lemma_parse_of_text(other, s.skip(n as int));
    }
}

/// Appends the text string `text` to `out`.
pub fn write_text(out: &mut Vec<u8>, text: &str)
    ensures
        final(out)@ == old(out)@ + text_item(text@),
        encode_utf8(text@).len() <= usize::MAX,
{
    let utf8 = text.as_bytes();
    push_head(out, Head::Text(utf8.len()));
    out.extend_from_slice(utf8);
    assert(out@ =~= old(out)@ + text_item(text@));
}

/// Appends the byte string `bytes` to `out`.
pub fn write_bytes(out: &mut Vec<u8>, bytes: &[u8])
    ensures
        final(out)@ == old(out)@ + bytes_item(bytes@),
        bytes@.len() <= usize::MAX,
{
    push_head(out, Head::Bytes(bytes.len()));
    out.extend_from_slice(bytes);
    assert(out@ =~= old(out)@ + bytes_item(bytes@));
}

/// Turns bytes into a `String` by `String::from_utf8`.
///
/// Claimed of that function: it succeeds exactly on valid UTF-8, and the
/// string it gives has the given bytes as its UTF-8 form.
#[verifier::external_body]
fn string_from_utf8(bytes: Vec<u8>) -> (r: Option<String>)
    ensures
        r is Some <==> valid_utf8(bytes@),
        r is Some ==> encode_utf8(r->Some_0@) == bytes@,
{
    String::from_utf8(bytes).ok()
}

/// Reads the text string that stands at `pos`.
///
/// Returns the text and the position after it, or nothing where no text
/// string of valid UTF-8 stands there whole.
pub fn read_text(input: &[u8], pos: usize) -> (r: Option<(String, usize)>)
    requires
        pos <= input@.len(),
    ensures
        match parse_text(input@.skip(pos as int)) {
            Some((chars, used)) => r is Some && r->Some_0.0@ == chars && r->Some_0.1 == pos
                + used && pos + used <= input@.len(),
            None => r is None,
        },
{
    let ghost s = input@.skip(pos as int);
    match read_head(input, pos) {
        Some((Head::Text(n), start)) => {
            if n > input.len() - start {
                return None;
            }
            let end: usize = start + n;
            let body = slice_to_vec(slice_subrange(input, start, end));
            assert(body@ =~= s.subrange(start - pos, end - pos));
            match string_from_utf8(body) {
                Some(text) => {
                    proof {
                        encode_utf8_decode_utf8(text@);
                    }
                    Some((text, end))
                },
                None => None,
            }
        },
        _ => None,
    }
}

/// Reads the byte string that stands at `pos`.
///
/// Returns the bytes and the position after them, or nothing where no byte
/// string stands there whole.
pub fn read_bytes(input: &[u8], pos: usize) -> (r: Option<(Vec<u8>, usize)>)
    requires
        pos <= input@.len(),
    ensures
        match parse_bytes(input@.skip(pos as int)) {
            Some((bytes, used)) => r is Some && r->Some_0.0@ == bytes && r->Some_0.1 == pos
                + used && pos + used <= input@.len(),
            None => r is None,
        },
{
    let ghost s = input@.skip(pos as int);
    match read_head(input, pos) {
        Some((Head::Bytes(n), start)) => {
            if n > input.len() - start {
                return None;
            }
            let end: usize = start + n;
            let body = slice_to_vec(slice_subrange(input, start, end));
            assert(body@ =~= s.subrange(start - pos, end - pos));
            Some((body, end))
        },
        _ => None,
    }
}

/// Whether the bytes of `pattern` stand in `input` from `start` on.
fn matches_at(input: &[u8], start: usize, pattern: &[u8]) -> (r: bool)
    requires
        start <= input@.len(),
    ensures
        r == (start + pattern@.len() <= input@.len() && input@.subrange(
            start as int,
            start + pattern@.len(),
        ) == pattern@),
{
    let n: usize = pattern.len();
    if n > input.len() - start {
        return false;
    }
    let mut i: usize = 0;
    while i < n
        invariant
            i <= n,
            n == pattern@.len(),
            start + n <= input.len(),
            forall|j: int| 0 <= j < i ==> input@[start + j] == pattern@[j],
        decreases n - i,
    {
        if input[start + i] != pattern[i] {
            assert(input@.subrange(start as int, start + n)[i as int] != pattern@[i as int]);
            return false;
        }
        i += 1;
    }
    assert(input@.subrange(start as int, start + n) =~= pattern@);
    true
}

/// What it takes for the key `key` to stand at the start of `s`: a text
/// head in its shortest form that declares the key's length, and then the
/// key's bytes.
pub open spec fn key_stands(s: Seq<u8>, key: Seq<char>) -> bool {
    match parse_short_head(s) {
        Some((Head::Text(m), used)) => {
            &&& m == encode_utf8(key).len()
            &&& used + m <= s.len()
            &&& s.subrange(used as int, used + m) == encode_utf8(key)
        },
        _ => false,
    }
}

/// A key is found exactly where it stands, and takes its head and its bytes.
pub proof fn lemma_key_found(s: Seq<u8>, key: Seq<char>)
    requires
        encode_utf8(key).len() <= usize::MAX,
    ensures
        parse_key(s, key) is Some <==> key_stands(s, key),
        key_stands(s, key) ==> parse_key(s, key) == Some(
            parse_short_head(s)->Some_0.1 + encode_utf8(key).len(),
        ),
{
    let utf8 = encode_utf8(key);
    let item = text_item(key);
    let head = Head::Text(utf8.len() as usize);
    if item.is_prefix_of(s) {
        let rest = s.skip(item.len() as int);
        assert(s.subrange(0, item.len() as int) =~= item);
        assert(s =~= item + rest);
        assert(item == head_bytes(head) + utf8);
        assert(s =~= head_bytes(head) + (utf8 + rest));
        lemma_parse_of_head(head, utf8 + rest);
        let used = head_bytes(head).len();
        assert(s.subrange(used as int, (used + utf8.len()) as int) =~= utf8);
    }
    if key_stands(s, key) {
        let (found, used) = parse_short_head(s)->Some_0;
        lemma_head_of_parse(s);
        assert(item =~= s.subrange(0, used as int) + s.subrange(
            used as int,
            (used + utf8.len()) as int,
        ));
        assert(item =~= s.subrange(0, (used + utf8.len()) as int));
    }
}

/// Checks that the text string `key` stands at `pos`.
///
/// Returns the position after it, or nothing where something else stands
/// there.
pub fn expect_key(input: &[u8], pos: usize, key: &str) -> (r: Option<usize>)
    requires
        pos <= input@.len(),
    ensures
        match parse_key(input@.skip(pos as int), key@) {
            Some(used) => r is Some && r->Some_0 == pos + used && pos + used <= input@.len(),
            None => r is None,
        },
{
    let ghost s = input@.skip(pos as int);
    let total: usize = input.len();
    let utf8 = key.as_bytes();
    let n: usize = utf8.len();
    assert(utf8@ == encode_utf8(key@));
    proof {
        lemma_key_found(s, key@);
    }
    match read_head(input, pos) {
        Some((Head::Text(m), start)) => {
            if m == n && matches_at(input, start, utf8) {
                assert(input@.subrange(start as int, start + n) =~= s.subrange(
                    start - pos,
                    start - pos + n,
                ));
                Some(start + n)
            } else {
                proof {
                    if key_stands(s, key@) {
                        assert(input@.subrange(start as int, start + n) =~= s.subrange(
                            start - pos,
                            start - pos + n,
                        ));
                    }
                }
                None
            }
        },
        _ => None,
    }
}

/// The items of an array of small numbers: one unsigned head for each.
pub open spec fn uint8_items(values: Seq<u8>) -> Seq<u8>
    decreases values.len(),
{
    if values.len() == 0 {
        Seq::empty()
    } else {
        head_encoding(0, values[0] as nat) + uint8_items(values.skip(1))
    }
}

/// An array of small numbers on the wire: an array head with the count,
/// then the numbers.
pub open spec fn uint8_array(values: Seq<u8>) -> Seq<u8> {
    head_encoding(4, values.len()) + uint8_items(values)
}

/// The `count` small numbers at the start of `s` and the bytes they take.
pub open spec fn parse_uint8_items(s: Seq<u8>, count: nat) -> Option<(Seq<u8>, nat)>
    decreases count,
{
    if count == 0 {
        Some((Seq::empty(), 0))
    } else {
        match parse_short_head(s) {
            Some((Head::Positive(v), used)) => if v <= 255 {
                match parse_uint8_items(s.skip(used as int), (count - 1) as nat) {
                    Some((tail, more)) => Some((seq![v as u8] + tail, used + more)),
                    None => None,
                }
            } else {
                None
            },
            _ => None,
        }
    }
}

/// The array of small numbers at the start of `s` and the bytes it takes.
pub open spec fn parse_uint8_array(s: Seq<u8>) -> Option<(Seq<u8>, nat)> {
    match parse_short_head(s) {
        Some((Head::Array(n), used)) => match parse_uint8_items(s.skip(used as int), n as nat) {
            Some((values, more)) => Some((values, used + more)),
            None => None,
        },
        _ => None,
    }
}

/// Reading written numbers gives the numbers back, whatever follows them.
pub proof fn lemma_parse_of_uint8_items(values: Seq<u8>, rest: Seq<u8>)
    ensures
        parse_uint8_items(uint8_items(values) + rest, values.len()) == Some(
            (values, uint8_items(values).len()),
        ),
    decreases values.len(),
{
    if values.len() > 0 {
        let head = Head::Positive(values[0] as u64);
        let tail = values.skip(1);
        let s = uint8_items(values) + rest;
        assert(s =~= head_bytes(head) + (uint8_items(tail) + rest));
        lemma_parse_of_head(head, uint8_items(tail) + rest);
        let used = head_bytes(head).len();
        assert(s.skip(used as int) =~= uint8_items(tail) + rest);
        lemma_parse_of_uint8_items(tail, rest);
        assert(seq![values[0]] + tail =~= values);
    }
}

/// Numbers that are read stand on the wire exactly as a writer would have
/// put them, and are as many as were asked for.
pub proof fn lemma_uint8_items_of_parse(s: Seq<u8>, count: nat)
    requires
        parse_uint8_items(s, count) is Some,
    ensures
        parse_uint8_items(s, count)->Some_0.0.len() == count,
        parse_uint8_items(s, count)->Some_0.1 <= s.len(),
        s.subrange(0, parse_uint8_items(s, count)->Some_0.1 as int) == uint8_items(
            parse_uint8_items(s, count)->Some_0.0,
        ),
    decreases count,
{
    let (values, end) = parse_uint8_items(s, count)->Some_0;
    if count == 0 {
        assert(s.subrange(0, 0) =~= uint8_items(values));
    } else {
        let (head, used) = parse_short_head(s)->Some_0;
        lemma_head_of_parse(s);
        let after = s.skip(used as int);
        lemma_uint8_items_of_parse(after, (count - 1) as nat);
        let (tail, more) = parse_uint8_items(after, (count - 1) as nat)->Some_0;
        assert(values.skip(1) =~= tail);
        assert(after.subrange(0, more as int) =~= s.subrange(used as int, end as int));
        assert(s.subrange(0, end as int) =~= s.subrange(0, used as int) + s.subrange(
            used as int,
            end as int,
        ));
    }
}

/// Reading a written array gives the numbers back, whatever follows it.
pub proof fn lemma_parse_of_uint8_array(values: Seq<u8>, rest: Seq<u8>)
    requires
        values.len() <= usize::MAX,
    ensures
        parse_uint8_array(uint8_array(values) + rest) == Some(
            (values, uint8_array(values).len()),
        ),
{
    let head = Head::Array(values.len() as usize);
    let s = uint8_array(values) + rest;
    assert(s =~= head_bytes(head) + (uint8_items(values) + rest));
    lemma_parse_of_head(head, uint8_items(values) + rest);
    let used = head_bytes(head).len();
    assert(s.skip(used as int) =~= uint8_items(values) + rest);
    lemma_parse_of_uint8_items(values, rest);
}

/// An array that is read stands on the wire exactly as a writer would have
/// put it.
pub proof fn lemma_uint8_array_of_parse(s: Seq<u8>)
    requires
        parse_uint8_array(s) is Some,
    ensures
        parse_uint8_array(s)->Some_0.1 <= s.len(),
        s.subrange(0, parse_uint8_array(s)->Some_0.1 as int) == uint8_array(
            parse_uint8_array(s)->Some_0.0,
        ),
        parse_uint8_array(s)->Some_0.0.len() <= usize::MAX,
{
    let (values, end) = parse_uint8_array(s)->Some_0;
    let (head, used) = parse_short_head(s)->Some_0;
    lemma_head_of_parse(s);
    let after = s.skip(used as int);
    lemma_uint8_items_of_parse(after, head.argument());
    let more = parse_uint8_items(after, head.argument())->Some_0.1;
    assert(after.subrange(0, more as int) =~= s.subrange(used as int, end as int));
    assert(s.subrange(0, end as int) =~= s.subrange(0, used as int) + s.subrange(
        used as int,
        end as int,
    ));
}

/// Appends the array of small numbers `values` to `out`.
pub fn write_uint8_array(out: &mut Vec<u8>, values: &[u8])
    ensures
        final(out)@ == old(out)@ + uint8_array(values@),
        values@.len() <= usize::MAX,
{
    let n: usize = values.len();
    push_head(out, Head::Array(n));
    let ghost start = out@;
    let mut i: usize = 0;
    assert(values@.skip(0) =~= values@);
    while i < n
        invariant
            i <= n,
            n == values@.len(),
            start + uint8_items(values@) =~= out@ + uint8_items(values@.skip(i as int)),
        decreases n - i,
    {
        let ghost before = out@;
        let ghost remaining = values@.skip(i as int);
        push_head(out, Head::Positive(values[i] as u64));
        i += 1;
        assert(remaining.skip(1) =~= values@.skip(i as int));
        assert(out@ + uint8_items(values@.skip(i as int)) =~= before + uint8_items(remaining));
    }
    assert(out@ =~= start + uint8_items(values@));
    assert(out@ =~= old(out)@ + uint8_array(values@));
}

/// Reads the array of small numbers that stands at `pos`.
///
/// Returns the numbers and the position after them, or nothing where no
/// array stands there whole or one of its items is not a number below 256.
pub fn read_uint8_array(input: &[u8], pos: usize) -> (r: Option<(Vec<u8>, usize)>)
    requires
        pos <= input@.len(),
    ensures
        match parse_uint8_array(input@.skip(pos as int)) {
            Some((values, used)) => r is Some && r->Some_0.0@ == values && r->Some_0.1 == pos
                + used && pos + used <= input@.len(),
            None => r is None,
        },
{
    let ghost s = input@.skip(pos as int);
    let (count, start) = match read_head(input, pos) {
        Some((Head::Array(n), start)) => (n, start),
        _ => {
            return None;
        },
    };
    let ghost whole = parse_uint8_items(input@.skip(start as int), count as nat);
    assert(input@.skip(start as int) =~= s.skip(start - pos));
    let mut values: Vec<u8> = Vec::new();
    let mut at: usize = start;
    let mut i: usize = 0;
    assert(Seq::<u8>::empty() + whole->Some_0.0 =~= whole->Some_0.0);
    while i < count
        invariant
            i <= count,
            pos <= start <= at <= input@.len(),
            values@.len() == i,
            parse_uint8_array(input@.skip(pos as int)) == match whole {
                Some((all, more)) => Some((all, (start - pos + more) as nat)),
                None => None,
            },
            whole == match parse_uint8_items(input@.skip(at as int), (count - i) as nat) {
                Some((tail, more)) => Some((values@ + tail, (at - start + more) as nat)),
                None => None,
            },
        decreases count - i,
    {
        let ghost here = input@.skip(at as int);
        match read_head(input, at) {
            Some((Head::Positive(v), next)) => {
                if v > 255 {
                    return None;
                }
                proof {
                    assert(here.skip(next - at) =~= input@.skip(next as int));
                    match parse_uint8_items(input@.skip(next as int), (count - i - 1) as nat) {
                        Some((tail, more)) => {
                            assert(values@ + (seq![v as u8] + tail) =~= values@.push(v as u8)
                                + tail);
                        },
                        None => {},
                    }
                }
                values.push(v as u8);
                at = next;
                i += 1;
            },
            _ => {
                return None;
            },
        }
    }
    proof {
        lemma_uint8_items_of_parse(input@.skip(start as int), count as nat);
        assert(values@ + Seq::<u8>::empty() =~= values@);
    }
    Some((values, at))
}

/// Copies `values` into an array of 16 bytes, where there are 16 of them.
pub fn to_array_16(values: &[u8]) -> (r: Option<[u8; 16]>)
    ensures
        values@.len() == 16 ==> r is Some && r->Some_0@ == values@,
        values@.len() != 16 ==> r is None,
{
    if values.len() != 16 {
        return None;
    }
    let mut array: [u8; 16] = [0u8; 16];
    let mut i: usize = 0;
    while i < 16
        invariant
            i <= 16,
            values@.len() == 16,
            forall|j: int| 0 <= j < i ==> array@[j] == values@[j],
        decreases 16 - i,
    {
        array[i] = values[i];
        i += 1;
    }
    assert(array@ =~= values@);
    Some(array)
}

/// Copies `values` into an array of 32 bytes, where there are 32 of them.
pub fn to_array_32(values: &[u8]) -> (r: Option<[u8; 32]>)
    ensures
        values@.len() == 32 ==> r is Some && r->Some_0@ == values@,
        values@.len() != 32 ==> r is None,
{
    if values.len() != 32 {
        return None;
    }
    let mut array: [u8; 32] = [0u8; 32];
    let mut i: usize = 0;
    while i < 32
        invariant
            i <= 32,
            values@.len() == 32,
            forall|j: int| 0 <= j < i ==> array@[j] == values@[j],
        decreases 32 - i,
    {
        array[i] = values[i];
        i += 1;
    }
    assert(array@ =~= values@);
    Some(array)
}

} // verus!
