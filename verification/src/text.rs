//! Text on the wire: one byte for each character.

use vstd::prelude::*;

verus! {

/// The character that a byte stands for: the one with the byte's value as
/// its code.
pub open spec fn byte_char(b: u8) -> char {
    b as char
}

/// The byte that is written for a character: the low eight bits of its code.
pub open spec fn char_byte(c: char) -> u8 {
    ((c as u32) % 256) as u8
}

/// A character that one byte can carry.
pub open spec fn single_byte(c: char) -> bool {
    (c as u32) < 256
}

/// A text all of whose characters fit in one byte each.
pub open spec fn single_byte_text(text: Seq<char>) -> bool {
    forall|i: int| 0 <= i < text.len() ==> single_byte(#[trigger] text[i])
}

/// The text that a run of bytes stands for.
pub open spec fn text_of(bytes: Seq<u8>) -> Seq<char> {
    bytes.map_values(|b: u8| byte_char(b))
}

/// The bytes that are written for a text.
pub open spec fn bytes_of(text: Seq<char>) -> Seq<u8> {
    text.map_values(|c: char| char_byte(c))
}

/// A byte is the one that is written for its character.
pub proof fn lemma_byte_round_trip(b: u8)
    ensures
        single_byte(byte_char(b)),
        char_byte(byte_char(b)) == b,
{
}

/// A character of one byte is the one that its byte stands for.
pub proof fn lemma_char_round_trip(c: char)
    requires
        single_byte(c),
    ensures
        byte_char(char_byte(c)) == c,
{
    let code = c as u32;
    assert(code % 256 == code);
    let b = (code % 256) as u8;
    assert(b == code);
    assert(b as char == code as char);
}

/// A text of characters of one byte each is the one that its bytes stand
/// for.
pub proof fn lemma_text_round_trip(text: Seq<char>)
    requires
        single_byte_text(text),
    ensures
        text_of(bytes_of(text)) == text,
{
    assert forall|i: int| 0 <= i < text.len() implies byte_char(#[trigger] bytes_of(text)[i])
        == text[i] by {
        lemma_char_round_trip(text[i]);
    }
    assert(text_of(bytes_of(text)) =~= text);
}

/// Bytes are those that are written for the text that they stand for, and
/// each character of that text fits in one byte.
pub proof fn lemma_bytes_round_trip(bytes: Seq<u8>)
    ensures
        single_byte_text(text_of(bytes)),
        bytes_of(text_of(bytes)) == bytes,
{
    assert forall|i: int| 0 <= i < bytes.len() implies char_byte(#[trigger] text_of(bytes)[i])
        == bytes[i] && single_byte(text_of(bytes)[i]) by {
        lemma_byte_round_trip(bytes[i]);
    }
    assert(bytes_of(text_of(bytes)) =~= bytes);
}

/// The character that a byte stands for.
pub fn to_char(b: u8) -> (c: char)
    ensures
        c == byte_char(b),
        single_byte(c),
{
    b as char
}

/// The byte that is written for a character.
pub fn to_byte(c: char) -> (b: u8)
    ensures
        b == char_byte(c),
{
    let code: u32 = c as u32;
    (code % 256) as u8
}

/// `String::push` of std: the text afterwards is the text before with `c`
/// as one more character at its end.
#[verifier::external_body]
pub(crate) fn push_char(s: &mut String, c: char)
    ensures
        final(s)@ == old(s)@.push(c),
{
    s.push(c)
}

} // verus!
