use jo::text::{
    chars_of, contains_chars, decimal, ends_with, lowered_chars, repeat, same_chars, to_capital,
    to_small, without_last,
};

#[test]
fn numbers_in_decimal() {
    for n in [0u64, 7, 10, 99, 100, 12345, u64::MAX] {
        assert_eq!(decimal(n), n.to_string());
    }
}

#[test]
fn capitals_and_small_letters() {
    for code in 0..512u32 {
        if let Some(ch) = char::from_u32(code) {
            assert_eq!(to_small(ch), ch.to_ascii_lowercase());
            assert_eq!(to_capital(ch), ch.to_ascii_uppercase());
        }
    }
    let lowered: String = lowered_chars("ÀBc Ω").into_iter().collect();
    assert_eq!(lowered, "Àbc Ω");
}

#[test]
fn parts_of_texts() {
    for (whole, part) in [
        ("abcab", "ab"),
        ("abcab", "cab"),
        ("abcab", "cb"),
        ("aab", "ab"),
        ("", ""),
        ("a", ""),
        ("", "a"),
        ("ab", "abc"),
        ("häßlich", "ßl"),
    ] {
        assert_eq!(contains_chars(&chars_of(whole), &chars_of(part)), whole.contains(part));
        assert_eq!(ends_with(whole, part), whole.ends_with(part));
        assert_eq!(same_chars(&chars_of(whole), &chars_of(part)), whole == part);
    }
}

#[test]
fn texts_made_longer_and_shorter() {
    assert_eq!(repeat(" │ ", 3), " │  │  │ ");
    assert_eq!(repeat("x", 0), "");
    assert_eq!(without_last("abc"), "ab");
    assert_eq!(without_last("é"), "");
    assert_eq!(without_last(""), "");
}
