//! Conversions between bytes, characters and `String`s.
use vstd::prelude::*;
use vstd::utf8::{encode_utf8, encode_scalar, valid_utf8, decode_utf8};
use crate::reader::line_len;

verus! {

/// Views the bytes as a string slice when they are valid UTF-8
/// (`std::str::from_utf8`, which fails exactly on invalid UTF-8 and otherwise
/// borrows the same bytes as a `str`).
#[verifier::external_body]
pub(crate) fn str_from_utf8(bytes: &[u8]) -> (r: Option<&str>)
    ensures
        r is Some <==> vstd::utf8::valid_utf8(bytes@),
        r matches Some(s) ==> vstd::utf8::encode_utf8(s@) == bytes@,
{
    std::str::from_utf8(bytes).ok()
}

/// Appends one character to a `String` (`String::push`).
#[verifier::external_body]
pub(crate) fn push_char(s: &mut String, c: char)
    ensures
        final(s)@ == old(s)@.push(c),
{
    s.push(c)
}

/// The lowercase form of a text under Unicode case mapping; it depends on
/// the text alone.
pub uninterp spec fn lowercase(s: Seq<char>) -> Seq<char>;

/// The lowercase form of a string slice (`str::to_lowercase`): each
/// character mapped by the Unicode `Lowercase` rules into a new `String`.
/// The mapping itself is left unstated here, named `lowercase`.
#[verifier::external_body]
pub(crate) fn to_lowercase(s: &str) -> (r: String)
    ensures
        r@ == lowercase(s@),
{
    s.to_lowercase()
}

/// The uppercase form of a text under Unicode case mapping; it depends on
/// the text alone.
pub uninterp spec fn uppercase(s: Seq<char>) -> Seq<char>;

/// The uppercase form of a string slice (`str::to_uppercase`): each
/// character mapped by the Unicode `Uppercase` rules into a new `String`.
/// The mapping itself is left unstated here, named `uppercase`.
#[verifier::external_body]
pub(crate) fn to_uppercase(s: &str) -> (r: String)
    ensures
        r@ == uppercase(s@),
{
    s.to_uppercase()
}

/// Whether two string slices hold the same characters.
pub fn str_eq(a: &str, b: &str) -> (r: bool)
    ensures
        r == (a@ == b@),
{
    let ca = chars_of(a);
    let cb = chars_of(b);
    chars_eq(ca.as_slice(), cb.as_slice())
}

/// The characters of a string slice, in order.
pub fn chars_of(s: &str) -> (r: Vec<char>)
    ensures
        r@ == s@,
{
    let mut r: Vec<char> = Vec::new();
    for c in it: s.chars()
        invariant
            r@ == it.seq().take(it.index() as int),
    {
        r.push(c);
    }
    r
}

/// Appends a string slice to a `String` (`String::push_str`).
#[verifier::external_body]
pub(crate) fn push_str(s: &mut String, t: &str)
    ensures
        final(s)@ == old(s)@ + t@,
{
    s.push_str(t)
}

/// A `String` holding the given characters.
pub fn string_from_chars(cs: &[char]) -> (r: String)
    ensures
        r@ == cs@,
{
    let mut r = String::new();
    let mut i: usize = 0;
    while i < cs.len()
        invariant
            i <= cs@.len(),
            r@ == cs@.take(i as int),
        decreases cs@.len() - i,
    {
        push_char(&mut r, cs[i]);
        i = i + 1;
        assert(r@ =~= cs@.take(i as int));
    }
    assert(cs@.take(i as int) =~= cs@);
    r
}

/// Whether two character sequences are equal.
pub fn chars_eq(a: &[char], b: &[char]) -> (r: bool)
    ensures
        r == (a@ == b@),
{
    if a.len() != b.len() {
        return false;
    }
    let mut i: usize = 0;
    while i < a.len()
        invariant
            i <= a@.len(),
            a@.len() == b@.len(),
            forall|j: int| 0 <= j < i ==> a@[j] == b@[j],
        decreases a@.len() - i,
    {
        if a[i] != b[i] {
            return false;
        }
        i = i + 1;
    }
    assert(a@ =~= b@);
    true
}

/// Encoding distributes over concatenation.
pub proof fn lemma_encode_concat(a: Seq<char>, b: Seq<char>)
    ensures
        encode_utf8(a + b) == encode_utf8(a) + encode_utf8(b),
    decreases a.len(),
{
    if a.len() == 0 {
        assert(a + b =~= b);
        assert(encode_utf8(a) + encode_utf8(b) =~= encode_utf8(b));
    } else {
        assert((a + b).drop_first() =~= a.drop_first() + b);
        lemma_encode_concat(a.drop_first(), b);
        assert(encode_utf8(a + b) =~= encode_utf8(a) + encode_utf8(b));
    }
}

/// Only the newline character encodes to a newline byte.
proof fn lemma_encode_scalar_no_newline(c: char)
    requires
        c != '\n',
    ensures
        forall|i: int| 0 <= i < encode_scalar(c as u32).len() ==> #[trigger] encode_scalar(
            c as u32,
        )[i] != 10,
{
    let u = c as u32;
    vstd::utf8::char_is_scalar(c);
    if vstd::utf8::has_width_1_encoding(u) {
        assert((u & 0x7F) as u8 == u) by (bit_vector)
            requires
                u <= 0x7F,
        ;
        assert(u != 10);
    } else if vstd::utf8::has_width_2_encoding(u) {
        assert(0xC0 | ((u >> 6) & 0x1F) as u8 >= 0x80) by (bit_vector);
        assert(0x80 | (u & 0x3F) as u8 >= 0x80) by (bit_vector);
    } else if vstd::utf8::has_width_3_encoding(u) {
        assert(0xE0 | ((u >> 12) & 0x0F) as u8 >= 0x80) by (bit_vector);
        assert(0x80 | ((u >> 6) & 0x3F) as u8 >= 0x80) by (bit_vector);
        assert(0x80 | (u & 0x3F) as u8 >= 0x80) by (bit_vector);
    } else {
        assert(0xF0 | ((u >> 18) & 0x7) as u8 >= 0x80) by (bit_vector);
        assert(0x80 | ((u >> 12) & 0x3F) as u8 >= 0x80) by (bit_vector);
        assert(0x80 | ((u >> 6) & 0x3F) as u8 >= 0x80) by (bit_vector);
        assert(0x80 | (u & 0x3F) as u8 >= 0x80) by (bit_vector);
    }
}

/// Text without newlines encodes to bytes without newlines.
pub proof fn lemma_encode_no_newline(a: Seq<char>)
    requires
        forall|i: int| 0 <= i < a.len() ==> #[trigger] a[i] != '\n',
    ensures
        forall|i: int| 0 <= i < encode_utf8(a).len() ==> #[trigger] encode_utf8(a)[i] != 10,
    decreases a.len(),
{
    if a.len() > 0 {
        lemma_encode_scalar_no_newline(a[0]);
        assert forall|i: int| 0 <= i < a.drop_first().len() implies #[trigger] a.drop_first()[i]
            != '\n' by {
            assert(a.drop_first()[i] == a[i + 1]);
        }
        lemma_encode_no_newline(a.drop_first());
        let e = encode_scalar(a[0] as u32);
        assert(encode_utf8(a) == e + encode_utf8(a.drop_first()));
        assert forall|i: int| 0 <= i < encode_utf8(a).len() implies #[trigger] encode_utf8(a)[i]
            != 10 by {
            if i < e.len() {
                assert(encode_utf8(a)[i] == e[i]);
            } else {
                assert(encode_utf8(a)[i] == encode_utf8(a.drop_first())[i - e.len()]);
            }
        }
    }
}

/// A line of text ended by a newline is read back whole, whatever follows it.
pub proof fn lemma_line_of_text(a: Seq<char>, rest: Seq<u8>)
    requires
        forall|i: int| 0 <= i < a.len() ==> #[trigger] a[i] != '\n',
    ensures
        ({
            let bytes = encode_utf8(a.push('\n')) + rest;
            let n = line_len(bytes);
            &&& n == encode_utf8(a.push('\n')).len()
            &&& bytes.take(n as int) == encode_utf8(a.push('\n'))
            &&& valid_utf8(bytes.take(n as int))
            &&& decode_utf8(bytes.take(n as int)) == a.push('\n')
        }),
{
    lemma_encode_concat(a, seq!['\n']);
    assert(a.push('\n') =~= a + seq!['\n']);
    lemma_encode_no_newline(a);
    let e = encode_utf8(a);
    let nl = encode_utf8(seq!['\n']);
    assert(nl =~= seq![10u8]) by {
        assert(encode_utf8(seq!['\n']) == encode_scalar('\n' as u32) + encode_utf8(
            seq!['\n'].drop_first(),
        ));
        assert(seq!['\n'].drop_first() =~= Seq::<char>::empty());
        assert(('\n' as u32) == 10);
        assert(((10u32 & 0x7F) as u8) == 10u8) by (bit_vector);
    }
    let bytes = encode_utf8(a.push('\n')) + rest;
    assert(bytes =~= e + seq![10u8] + rest);
    lemma_line_len_prefix(bytes, e.len() as int);
    assert(bytes.take(e.len() + 1int) =~= encode_utf8(a.push('\n')));
    vstd::utf8::encode_utf8_valid_utf8(a.push('\n'));
    vstd::utf8::encode_utf8_decode_utf8(a.push('\n'));
}

/// The first newline at `k` ends the first line.
proof fn lemma_line_len_prefix(s: Seq<u8>, k: int)
    requires
        0 <= k < s.len(),
        s[k] == 10,
        forall|j: int| 0 <= j < k ==> #[trigger] s[j] != 10,
    ensures
        line_len(s) == k + 1,
    decreases k,
{
    if k > 0 {
        assert forall|j: int| 0 <= j < k - 1 implies #[trigger] s.drop_first()[j] != 10 by {
            assert(s.drop_first()[j] == s[j + 1]);
        }
        lemma_line_len_prefix(s.drop_first(), k - 1);
    }
}

} // verus!
