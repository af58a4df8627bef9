use soundscout::text::{
    ascii_lowercase, chars_of, collapse_whitespace, join_chars, split_join, split_pieces,
    string_of, trim_chars, u64_to_decimal, Separators,
};

fn v(s: &str) -> Vec<char> {
    s.chars().collect()
}

#[test]
fn collapsing_whitespace() {
    assert_eq!(collapse_whitespace(&v("  a \t b\n\nc  ")), v("a b c"));
    assert_eq!(collapse_whitespace(&v(" \u{3000} ")), v(""));
}

#[test]
fn splitting_on_separators() {
    let p = split_pieces(&v("/a//b/"), Separators::Slash);
    assert_eq!(p, vec![v("a"), v("b")]);
    assert_eq!(split_join(&v("a_b-c d.e"), Separators::FileName), v("a b c d e"));
    assert_eq!(split_join(&v("x\\y/z_w"), Separators::Folder), v("x y z w"));
    assert_eq!(join_chars(&vec![v("a"), v(""), v("b")], ','), v("a,,b"));
}

#[test]
fn trimming_and_conversions() {
    assert_eq!(trim_chars(&v("\t x y \n")), v("x y"));
    assert_eq!(string_of(&chars_of("Grüße")), "Grüße");
    assert_eq!(ascii_lowercase("ABC ÄÖ"), "abc ÄÖ");
    assert_eq!(u64_to_decimal(0), "0");
    assert_eq!(u64_to_decimal(18_446_744_073_709_551_615), "18446744073709551615");
}
