use common_collections::strings::{
    bytes, chars, checked_slice, combine, concatenate, slice, string_stuff,
};

#[test]
fn concatenate_first_and_second() {
    let first = String::from("first ");
    let second = String::from("second");
    let both = concatenate(first, &second);
    assert_eq!(both, "first second");
    assert_eq!(second, "second");
}

#[test]
fn concatenate_with_an_empty_operand() {
    assert_eq!(concatenate(String::new(), "second"), "second");
    assert_eq!(concatenate(String::from("first "), ""), "first ");
    assert_eq!(concatenate(String::new(), ""), "");
}

#[test]
fn slice_abc_from_0_to_2() {
    assert_eq!(slice("abc", 0, 2), "ab");
}

#[test]
fn slice_is_a_view_into_the_text() {
    let text = String::from("abc");
    let view = slice(&text, 1, 3);
    assert_eq!(view, "bc");
    assert_eq!(view.as_ptr(), text[1..].as_ptr());
}

#[test]
fn slice_of_an_empty_range_is_empty() {
    assert_eq!(slice("abc", 0, 0), "");
    assert_eq!(slice("abc", 3, 3), "");
    assert_eq!(slice("", 0, 0), "");
}

#[test]
fn slice_of_the_whole_text_is_the_text() {
    assert_eq!(slice("abc", 0, 3), "abc");
}

#[test]
fn slice_counts_in_bytes() {
    let text = "\u{417}\u{434}";
    assert_eq!(slice(text, 0, 2), "\u{417}");
    assert_eq!(slice(text, 2, 4), "\u{434}");
}

#[test]
fn checked_slice_is_present_on_character_boundaries() {
    assert_eq!(checked_slice("abc", 0, 2), Some("ab"));
    assert_eq!(checked_slice("abc", 3, 3), Some(""));
    assert_eq!(checked_slice("\u{417}\u{434}", 2, 4), Some("\u{434}"));
}

#[test]
fn checked_slice_is_absent_inside_a_character() {
    let text = "\u{417}\u{434}";
    assert_eq!(checked_slice(text, 0, 1), None);
    assert_eq!(checked_slice(text, 1, 2), None);
    assert_eq!(checked_slice(text, 0, 3), None);
}

#[test]
fn checked_slice_is_absent_past_the_end() {
    assert_eq!(checked_slice("abc", 0, 4), None);
    assert_eq!(checked_slice("abc", 4, 4), None);
    assert_eq!(checked_slice("abc", 0, usize::MAX), None);
}

#[test]
fn checked_slice_is_absent_for_a_range_out_of_order() {
    assert_eq!(checked_slice("abc", 2, 1), None);
}

#[test]
fn combine_puts_a_space_between_neighbours() {
    let s1 = String::from("abra");
    let s2 = String::from("kadabra");
    let s3 = String::from("alakazam");
    assert_eq!(combine(&s1, &s2, &s3), "abra kadabra alakazam");
    assert_eq!(s1, "abra");
    assert_eq!(s2, "kadabra");
    assert_eq!(s3, "alakazam");
}

#[test]
fn combine_keeps_empty_fragments() {
    assert_eq!(combine("", "", ""), "  ");
    assert_eq!(combine("a", "", "c"), "a  c");
}

#[test]
fn cyrillic_text_has_two_characters_and_four_bytes() {
    let text = "\u{417}\u{434}";
    assert_eq!(chars(text).len(), 2);
    assert_eq!(bytes(text).len(), 4);
    assert_eq!(chars(text), vec!['\u{417}', '\u{434}']);
    assert_eq!(bytes(text), vec![208, 151, 208, 180]);
}

#[test]
fn chars_and_bytes_agree_on_ascii() {
    assert_eq!(chars("abc"), vec!['a', 'b', 'c']);
    assert_eq!(bytes("abc"), vec![97, 98, 99]);
    assert!(chars("").is_empty());
    assert!(bytes("").is_empty());
}

#[test]
fn a_character_takes_from_one_to_four_bytes() {
    for text in ["a", "\u{e9}", "\u{20ac}", "\u{1f600}", "a\u{e9}\u{20ac}\u{1f600}"] {
        let characters = chars(text).len();
        let raw = bytes(text).len();
        assert!(characters <= raw && raw <= 4 * characters);
    }
    assert_eq!(bytes("\u{20ac}"), vec![0xE2, 0x82, 0xAC]);
    assert_eq!(bytes("\u{1f600}"), vec![0xF0, 0x9F, 0x98, 0x80]);
}

#[test]
fn string_stuff_meets_the_expected_values() {
    let steps = string_stuff();
    assert_eq!(steps.letters, "abc");
    assert_eq!(steps.literal, "def");
    assert_eq!(steps.literal_copy, "def");
    assert_eq!(steps.slice, "ab");
    assert_eq!(steps.extended, "abcdefg");
    assert_eq!(steps.both, "first second");
    assert_eq!(steps.appended, "first second");
    assert_eq!(steps.combined, "abra kadabra alakazam");
    assert_eq!(steps.decoded, vec!['\u{417}', '\u{434}']);
    assert_eq!(steps.encoded, vec![208, 151, 208, 180]);
    assert_eq!(steps.raw, vec![97, 98, 99, 100, 101, 102, 103]);
}
