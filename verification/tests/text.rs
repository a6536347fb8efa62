use glyph_codec::decimal::{decimal_string, signed_decimal_string};
use glyph_codec::text::{get_default_output_file, has_suffix, replace_all, split_string, split_text};

fn split(s: &str, pattern: &str) -> Vec<String> {
    split_string(&s.to_string(), pattern)
}

#[test]
fn split_at_slashes() {
    assert_eq!(split("a/b/c", "/"), vec!["a", "b", "c"]);
    assert_eq!(split("input/pictures/one.png", "/"), vec!["input", "pictures", "one.png"]);
}

#[test]
fn split_without_the_pattern_gives_one_piece() {
    assert_eq!(split("abc", "/"), vec!["abc"]);
    assert_eq!(split("", "/"), vec![""]);
    assert_eq!(split("ab", "abc"), vec!["ab"]);
}

#[test]
fn split_keeps_empty_pieces() {
    assert_eq!(split("/a/", "/"), vec!["", "a", ""]);
    assert_eq!(split("//", "/"), vec!["", "", ""]);
    assert_eq!(split("abc", "abc"), vec!["", ""]);
}

#[test]
fn split_finds_stands_from_the_left_without_overlap() {
    assert_eq!(split("aXXXb", "XX"), vec!["a", "Xb"]);
    assert_eq!(split("aaaa", "aa"), vec!["", "", ""]);
    assert_eq!(split("aaaaa", "aa"), vec!["", "", "a"]);
    assert_eq!(split("ababa", "aba"), vec!["", "ba"]);
}

#[test]
fn split_at_the_empty_pattern_gives_every_character() {
    assert_eq!(split("abc", ""), vec!["", "a", "b", "c", ""]);
    assert_eq!(split("", ""), vec!["", ""]);
}

#[test]
fn split_counts_characters_not_bytes() {
    assert_eq!(split("é/ü/日本", "/"), vec!["é", "ü", "日本"]);
    assert_eq!(split("日本語", "本"), vec!["日", "語"]);
    assert_eq!(split("日本", ""), vec!["", "日", "本", ""]);
}

#[test]
fn split_agrees_with_the_standard_library() {
    let texts = ["", "a", "ab", "a/b", "/", "//a//b//", "abcabcabc", "aaa", "xyzzy", "é-è-ê", "a.png.png"];
    let patterns = ["", "/", "//", "a", "aa", "abc", "bc", "z", "zz", "-", ".png", "è"];
    for text in texts {
        for pattern in patterns {
            let expected: Vec<String> = text.split(pattern).map(|p| p.to_string()).collect();
            assert_eq!(split_text(text, pattern), expected, "{:?} at {:?}", text, pattern);
        }
    }
}

#[test]
fn replace_all_agrees_with_the_standard_library() {
    let texts = ["", "a", "one.png", "a.png.png", ".png", "png", "aaaa", "ababab", "é.png"];
    let patterns = ["", ".png", "a", "aa", "ab", "png", "é"];
    let fillers = ["", ".svg", "a", "--"];
    for text in texts {
        for pattern in patterns {
            for filler in fillers {
                assert_eq!(
                    replace_all(text, pattern, filler),
                    text.replace(pattern, filler),
                    "{:?}: {:?} by {:?}",
                    text,
                    pattern,
                    filler
                );
            }
        }
    }
}

#[test]
fn replace_all_replaces_every_stand() {
    assert_eq!(replace_all("one.png", ".png", ".svg"), "one.svg");
    assert_eq!(replace_all("a.png.png", ".png", ".svg"), "a.svg.svg");
    assert_eq!(replace_all("abc", "", "-"), "-a-b-c-");
}

#[test]
fn has_suffix_tests_the_end() {
    assert!(has_suffix("one.png", ".png"));
    assert!(has_suffix(".png", ".png"));
    assert!(has_suffix("anything", ""));
    assert!(!has_suffix("png", ".png"));
    assert!(!has_suffix("one.png.", ".png"));
    assert!(!has_suffix("one.PNG", ".png"));
    assert!(has_suffix("日本.png", ".png"));
}

#[test]
fn default_output_file_goes_to_the_output_directory() {
    assert_eq!(get_default_output_file(&"input/one.png".to_string()), "output/one.svg");
    assert_eq!(get_default_output_file(&"one.png".to_string()), "output/one.svg");
    assert_eq!(get_default_output_file(&"/a/b.png/c.png".to_string()), "output/c.svg");
    assert_eq!(get_default_output_file(&"a/b.png.png".to_string()), "output/b.svg.svg");
    assert_eq!(get_default_output_file(&".png".to_string()), "output/.svg");
}

#[test]
fn decimal_string_writes_digits() {
    assert_eq!(decimal_string(0), "0");
    assert_eq!(decimal_string(7), "7");
    assert_eq!(decimal_string(10), "10");
    assert_eq!(decimal_string(1234567890), "1234567890");
    assert_eq!(decimal_string(u128::MAX), u128::MAX.to_string());
}

#[test]
fn signed_decimal_string_writes_the_sign() {
    assert_eq!(signed_decimal_string(0), "0");
    assert_eq!(signed_decimal_string(-1), "-1");
    assert_eq!(signed_decimal_string(417), "417");
    assert_eq!(signed_decimal_string(-9050), "-9050");
    assert_eq!(signed_decimal_string(i128::MIN), i128::MIN.to_string());
    assert_eq!(signed_decimal_string(i128::MAX), i128::MAX.to_string());
}
