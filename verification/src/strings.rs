//! Owned text buffers and borrowed views into them. A text is a sequence of
//! characters that is stored as the bytes of its UTF-8 encoding, so a position
//! can be counted in characters or in bytes.

use vstd::prelude::*;
use vstd::utf8::*;

verus! {

/// The values that `string_stuff` meets on its way, in the order in which it
/// meets them.
pub struct StringSteps {
    /// A text built by appending 'a', 'b' and 'c' to an empty one.
    pub letters: String,
    /// The literal "def", a borrowed text.
    pub literal: &'static str,
    /// An owned copy of that literal.
    pub literal_copy: String,
    /// The first two bytes of `letters`, copied out of the borrowed view.
    pub slice: String,
    /// `letters` after "def" and then 'g' were appended.
    pub extended: String,
    /// "first " and "second", concatenated into a new owner.
    pub both: String,
    /// "first " after "second" was appended in place.
    pub appended: String,
    /// Three fragments combined with spaces between them.
    pub combined: String,
    /// The two Cyrillic letters of a short text, one item for each character.
    pub decoded: Vec<char>,
    /// The same text, one item for each byte.
    pub encoded: Vec<u8>,
    /// The bytes of `extended`.
    pub raw: Vec<u8>,
}

/// Appends one character to the end of an owned text.
///
/// Calls `String::push`, whose effect is taken on trust: the characters that
/// were there stay, and `c` follows them.
#[verifier::external_body]
pub(crate) fn push_char(text: &mut String, c: char)
    ensures
        final(text)@ == old(text)@.push(c),
{
    text.push(c);
}

/// Concatenates two texts. The first operand is consumed and becomes the start
/// of the result; the second is only read and copied behind it.
pub fn concatenate(first: String, second: &str) -> (both: String)
    ensures
        both@ == first@ + second@,
{
    first.concat(second)
}

/// Builds a new text from three fragments, with a single space between
/// neighbours. None of the fragments is consumed.
pub fn combine(first: &str, second: &str, third: &str) -> (combined: String)
    ensures
        combined@ == first@ + seq![' '] + second@ + seq![' '] + third@,
{
    let mut combined = String::from_str(first);
    push_char(&mut combined, ' ');
    combined.append(second);
    push_char(&mut combined, ' ');
    combined.append(third);
    combined
}

/// The characters of a text, in order: one item for each character, however
/// many bytes its encoding takes.
pub fn chars(text: &str) -> (decoded: Vec<char>)
    ensures
        decoded@ == text@,
{
    let mut decoded: Vec<char> = Vec::new();
    for c in iter: text.chars()
        invariant
            decoded@.len() == iter.index(),
            forall|i: int| 0 <= i < iter.index() ==> decoded@[i] == iter.seq()[i],
    {
        decoded.push(c);
    }
    decoded
}

/// The raw bytes of a text, in order: the UTF-8 encoding of its characters.
pub fn bytes(text: &str) -> (raw: Vec<u8>)
    ensures
        raw@ == encode_utf8(text@),
{
    text.as_bytes_vec()
}

/// Whether the byte range from `from` up to, not including, `to` can be cut
/// out of a text: the range is in order, ends within the text, and neither end
/// falls inside the encoding of a character.
pub open spec fn is_sliceable(text: Seq<char>, from: int, to: int) -> bool {
    &&& from <= to
    &&& is_char_boundary(encode_utf8(text), from)
    &&& is_char_boundary(encode_utf8(text), to)
}

/// The characters whose encodings fill the byte range from `from` up to, not
/// including, `to` of a text.
pub open spec fn byte_range(text: Seq<char>, from: int, to: int) -> Seq<char> {
    decode_utf8(encode_utf8(text).subrange(from, to))
}

/// In a text of ASCII characters every character takes one byte, so a byte
/// range holds the characters at the same positions.
pub proof fn lemma_byte_range_of_ascii(text: Seq<char>, from: int, to: int)
    requires
        is_ascii_chars(text),
        0 <= from <= to <= text.len(),
    ensures
        is_sliceable(text, from, to),
        byte_range(text, from, to) == text.subrange(from, to),
{
    let encoded = encode_utf8(text);
    let part = text.subrange(from, to);
    is_ascii_chars_encode_utf8(text);
    is_ascii_chars_encode_utf8(part);
    assert(encode_utf8(part) =~= encoded.subrange(from, to));
    encode_utf8_decode_utf8(part);
    lemma_ascii_boundary(text, from);
    lemma_ascii_boundary(text, to);
}

/// A text cut in two at a character boundary is its two parts, one behind
/// the other.
pub proof fn lemma_parts_make_the_text(text: Seq<char>, at: int)
    requires
        is_char_boundary(encode_utf8(text), at),
    ensures
        is_sliceable(text, 0, at),
        is_sliceable(text, at, encode_utf8(text).len() as int),
        byte_range(text, 0, at) + byte_range(text, at, encode_utf8(text).len() as int) == text,
{
    let encoded = encode_utf8(text);
    encode_utf8_valid_utf8(text);
    is_char_boundary_start_end_of_seq(encoded);
    decode_utf8_split(encoded, at);
    encode_utf8_decode_utf8(text);
}

/// In a text of ASCII characters every position up to the length is a
/// character boundary.
proof fn lemma_ascii_boundary(text: Seq<char>, index: int)
    requires
        is_ascii_chars(text),
        0 <= index <= text.len(),
    ensures
        is_char_boundary(encode_utf8(text), index),
{
    let encoded = encode_utf8(text);
    is_ascii_chars_encode_utf8(text);
    encode_utf8_valid_utf8(text);
    if index == encoded.len() {
        is_char_boundary_start_end_of_seq(encoded);
    } else {
        let byte = encoded[index];
        assert(!is_continuation_byte(byte)) by (bit_vector)
            requires
                byte < 128,
        ;
        is_char_boundary_iff_not_is_continuation_byte(encoded, index);
    }
}

/// A boundary of a text that lies within a prefix cut at another boundary is
/// a boundary of that prefix too.
proof fn lemma_boundary_in_prefix(encoded: Seq<u8>, from: int, to: int)
    requires
        valid_utf8(encoded),
        0 <= from <= to,
        is_char_boundary(encoded, from),
        is_char_boundary(encoded, to),
    ensures
        to <= encoded.len(),
        valid_utf8(encoded.subrange(0, to)),
        is_char_boundary(encoded.subrange(0, to), from),
{
    let prefix = encoded.subrange(0, to);
    valid_utf8_split(encoded, to);
    if from == to {
        is_char_boundary_start_end_of_seq(prefix);
    } else {
        is_char_boundary_iff_not_is_continuation_byte(encoded, from);
        is_char_boundary_iff_not_is_continuation_byte(prefix, from);
    }
}

/// A borrowed view of the byte range from `from` up to, not including, `to`.
/// The range has to be sliceable: this is the unchecked form.
pub fn slice<'a>(text: &'a str, from: usize, to: usize) -> (view: &'a str)
    requires
        is_sliceable(text@, from as int, to as int),
    ensures
        view@ == byte_range(text@, from as int, to as int),
        encode_utf8(view@) == encode_utf8(text@).subrange(from as int, to as int),
{
    proof {
        encode_utf8_valid_utf8(text@);
        lemma_boundary_in_prefix(encode_utf8(text@), from as int, to as int);
    }
    let (head, _) = text.split_at(to);
    let (_, view) = head.split_at(from);
    proof {
        assert(encode_utf8(view@) =~= encode_utf8(text@).subrange(from as int, to as int));
        encode_utf8_decode_utf8(view@);
    }
    view
}

/// A borrowed view of the byte range from `from` up to, not including, `to`,
/// or `None` where the range cannot be cut out of the text.
pub fn checked_slice<'a>(text: &'a str, from: usize, to: usize) -> (view: Option<&'a str>)
    ensures
        view is Some <==> is_sliceable(text@, from as int, to as int),
        view matches Some(found) ==> found@ == byte_range(text@, from as int, to as int),
{
    if from <= to && text.is_char_boundary(from) && text.is_char_boundary(to) {
        Some(slice(text, from, to))
    } else {
        None
    }
}

/// Every character takes at least one byte and at most four, so a text has at
/// least as many bytes as characters and at most four times as many.
pub proof fn lemma_encoded_length(text: Seq<char>)
    ensures
        text.len() <= encode_utf8(text).len() <= 4 * text.len(),
    decreases text.len(),
{
    if text.len() > 0 {
        lemma_encoded_length(text.drop_first());
    }
}

/// A text of one character is encoded as that character is.
proof fn lemma_encode_one_char(c: char)
    ensures
        encode_utf8(seq![c]) == encode_scalar(c as u32),
{
    let text = seq![c];
    assert(encode_utf8(text) =~= encode_scalar(c as u32) + encode_utf8(text.drop_first()));
}

/// The encoding of a text of two characters is the encoding of the first
/// followed by the encoding of the second.
proof fn lemma_encode_two_chars(first: char, second: char)
    ensures
        encode_utf8(seq![first, second]) == encode_scalar(first as u32) + encode_scalar(
            second as u32,
        ),
{
    let both = seq![first, second];
    assert(both.drop_first() =~= seq![second]);
    lemma_encode_one_char(second);
}

/// The four bytes that encode the two Cyrillic letters U+0417 and U+0434.
proof fn lemma_cyrillic_bytes()
    ensures
        encode_utf8(seq!['\u{417}', '\u{434}']) == seq![208u8, 151, 208, 180],
{
    assert(0xC0u8 | ((0x417u32 >> 6) & 0x1F) as u8 == 208) by (bit_vector);
    assert(0x80u8 | (0x417u32 & 0x3F) as u8 == 151) by (bit_vector);
    assert(0xC0u8 | ((0x434u32 >> 6) & 0x1F) as u8 == 208) by (bit_vector);
    assert(0x80u8 | (0x434u32 & 0x3F) as u8 == 180) by (bit_vector);
    lemma_encode_two_chars('\u{417}', '\u{434}');
}

/// Walks through the operations of a text: builds one character by character,
/// copies a literal, borrows a byte range, appends a text and a character,
/// concatenates by moving and in place, combines fragments, iterates by
/// character and by byte, and converts a text into its bytes.
pub fn string_stuff() -> (steps: StringSteps)
    ensures
        steps.letters@ == "abc"@,
        steps.literal@ == "def"@,
        steps.literal_copy@ == "def"@,
        steps.slice@ == "ab"@,
        steps.extended@ == "abcdefg"@,
        steps.both@ == "first second"@,
        steps.appended@ == "first second"@,
        steps.combined@ == "abra kadabra alakazam"@,
        steps.decoded@ == seq!['\u{417}', '\u{434}'],
        steps.encoded@ == seq![208u8, 151, 208, 180],
        steps.raw@ == seq![97u8, 98, 99, 100, 101, 102, 103],
{
    let mut string = String::new();
    push_char(&mut string, 'a');
    push_char(&mut string, 'b');
    push_char(&mut string, 'c');
    let letters = string.clone();

    let string_literal = "def";
    let literal_copy = string_literal.to_string();

    proof {
        reveal_strlit("abc");
        reveal_strlit("ab");
        lemma_byte_range_of_ascii(string@, 0, 2);
    }
    let slice = String::from_str(slice(string.as_str(), 0, 2));

    string.append("def");
    push_char(&mut string, 'g');
    let extended = string.clone();

    let first = String::from_str("first ");
    let second = String::from_str("second");
    let both = concatenate(first, second.as_str());

    let mut first = String::from_str("first ");
    first.append(second.as_str());

    let s1 = String::from_str("abra");
    let s2 = String::from_str("kadabra");
    let s3 = String::from_str("alakazam");
    let combined = combine(s1.as_str(), s2.as_str(), s3.as_str());

    let cyrillic = "\u{417}\u{434}";
    let decoded = chars(cyrillic);
    let encoded = bytes(cyrillic);
    let raw = bytes(string.as_str());

    proof {
        reveal_strlit("def");
        reveal_strlit("abcdefg");
        reveal_strlit("first ");
        reveal_strlit("second");
        reveal_strlit("first second");
        reveal_strlit("abra");
        reveal_strlit("kadabra");
        reveal_strlit("alakazam");
        reveal_strlit("abra kadabra alakazam");
        reveal_strlit("\u{417}\u{434}");
        assert(decoded@ =~= seq!['\u{417}', '\u{434}']);
        lemma_cyrillic_bytes();
        is_ascii_chars_encode_utf8(extended@);
    }

    StringSteps {
        letters,
        literal: string_literal,
        literal_copy,
        slice,
        extended,
        both,
        appended: first,
        combined,
        decoded,
        encoded,
        raw,
    }
}

} // verus!
