use lib::order::{compare_paths, compare_strings, components_of, Rank};
use lib::text::{chars_of, decimal_string, split_lines, string_from_chars, trim_chars, trim_start_chars};

fn char_vec(s: &str) -> Vec<char> {
    s.chars().collect()
}

#[test]
fn strings_are_built_from_their_characters() {
    assert_eq!(string_from_chars(&['a', 'é', '_', '9']), "aé_9");
    assert_eq!(string_from_chars(&[]), "");
    assert_eq!(chars_of("añb"), vec!['a', 'ñ', 'b']);
}

#[test]
fn numbers_are_written_in_decimal() {
    assert_eq!(decimal_string(0), "0");
    assert_eq!(decimal_string(7), "7");
    assert_eq!(decimal_string(1204), "1204");
    assert_eq!(decimal_string(usize::MAX), usize::MAX.to_string());
}

#[test]
fn lines_split_like_str_lines() {
    for text in ["", "a", "a\n", "a\r\nb", "\n\n", "x\ry\n", "a\n\r\n"] {
        let expected: Vec<Vec<char>> = text.lines().map(char_vec).collect();
        assert_eq!(split_lines(&char_vec(text)), expected);
    }
}

#[test]
fn trimming_follows_unicode_whitespace() {
    assert_eq!(trim_chars(&char_vec("\t a b \u{3000}")), char_vec("a b"));
    assert_eq!(trim_start_chars(&char_vec("\u{a0} x ")), char_vec("x "));
    assert_eq!(trim_chars(&char_vec("   ")), char_vec(""));
}

#[test]
fn text_and_path_orders() {
    assert_eq!(compare_strings("abc", "abd"), Rank::Before);
    assert_eq!(compare_strings("ab", "a"), Rank::After);
    assert_eq!(compare_strings("same", "same"), Rank::Same);
    assert_eq!(compare_paths("src/a/b.rs", "src/a.rs"), Rank::Before);
    assert_eq!(compare_paths("a//b", "a/b"), Rank::Same);
    assert_eq!(compare_paths("./a", "a"), Rank::Before);
    assert_eq!(compare_paths("a/./b", "a/b"), Rank::Same);
    assert_eq!(compare_paths("/a", "a"), Rank::Before);
    assert_eq!(compare_paths("a/../b", "a/b"), Rank::Before);
    assert_eq!(components_of(&char_vec("a/b/")).len(), 2);
}
