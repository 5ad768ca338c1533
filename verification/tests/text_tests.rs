use gazette_scraper::utils::gazette::joined;
use gazette_scraper::utils::text::chars_of;
use gazette_scraper::utils::text::digits_of;
use gazette_scraper::utils::text::find_from;
use gazette_scraper::utils::text::matches_at;
use gazette_scraper::utils::text::number_chars;
use gazette_scraper::utils::text::push_all;
use gazette_scraper::utils::text::remove_char;
use gazette_scraper::utils::text::slice_of;
use gazette_scraper::utils::text::space;
use gazette_scraper::utils::text::split;
use gazette_scraper::utils::text::stands_before;
use gazette_scraper::utils::text::text_of;
use gazette_scraper::utils::text::trim;

fn chars(text: &str) -> Vec<char> {
    text.chars().collect()
}

fn text(chars: &Vec<char>) -> String {
    chars.iter().collect()
}

#[test]
fn characters_and_text_convert_both_ways() {
    assert_eq!(chars_of("a\u{e9}\u{1f600}z"), vec!['a', '\u{e9}', '\u{1f600}', 'z']);
    assert_eq!(text_of(&vec!['a', '\u{e9}', '\u{1f600}', 'z']), "a\u{e9}\u{1f600}z");
    assert_eq!(chars_of(""), Vec::<char>::new());
    assert_eq!(joined("ab", "cd"), "abcd");
    let mut all = chars("ab");
    push_all(&mut all, &chars("cd"));
    assert_eq!(text(&all), "abcd");
    assert_eq!(text(&slice_of(&chars("abcdef"), 2, 4)), "cd");
}

#[test]
fn search_finds_the_first_place() {
    let hay = chars("abcabcabc");
    assert_eq!(find_from(&hay, &chars("bc"), 0), Some(1));
    assert_eq!(find_from(&hay, &chars("bc"), 2), Some(4));
    assert_eq!(find_from(&hay, &chars("bc"), 8), None);
    assert_eq!(find_from(&hay, &chars("abc"), 6), Some(6));
    assert_eq!(find_from(&hay, &chars("abcd"), 0), None);
    assert_eq!(find_from(&hay, &chars(""), 3), Some(3));
    assert_eq!(find_from(&hay, &chars(""), 9), Some(9));
    assert_eq!(find_from(&hay, &chars(""), 10), None);
    assert_eq!(find_from(&chars(""), &chars("a"), 0), None);
    assert!(matches_at(&hay, &chars("cab"), 2));
    assert!(!matches_at(&hay, &chars("cab"), 3));
    assert!(!matches_at(&hay, &chars("abc"), 7));
}

#[test]
fn line_breaks_are_removed() {
    assert_eq!(text(&remove_char(&chars("a\nb\n\nc\n"), '\n')), "abc");
    assert_eq!(text(&remove_char(&chars("abc"), '\n')), "abc");
}

#[test]
fn trimming_removes_white_space_at_both_ends() {
    assert_eq!(text(&trim(&chars("  a b \t\n"))), "a b");
    assert_eq!(text(&trim(&chars("\u{a0}\u{2003}x\u{3000}"))), "x");
    assert_eq!(text(&trim(&chars("   "))), "");
    assert_eq!(text(&trim(&chars(""))), "");
    assert_eq!(text(&trim(&chars("x"))), "x");
}

#[test]
fn white_space_is_what_the_standard_library_calls_so() {
    for code in 0..0x3100u32 {
        if let Some(c) = char::from_u32(code) {
            assert_eq!(space(c), c.is_whitespace());
        }
    }
}

#[test]
fn numbers_are_written_in_decimal() {
    assert_eq!(text(&digits_of(0)), "0");
    assert_eq!(text(&digits_of(2025)), "2025");
    assert_eq!(text(&digits_of(u64::MAX)), u64::MAX.to_string());
    assert_eq!(text(&number_chars(-17)), "-17");
    assert_eq!(text(&number_chars(i64::MIN)), i64::MIN.to_string());
    assert_eq!(text(&number_chars(i64::MAX)), i64::MAX.to_string());
}

#[test]
fn splitting_gives_one_piece_more_than_separators() {
    assert_eq!(split("a\nb\nc", '\n'), vec!["a", "b", "c"]);
    assert_eq!(split("", '\n'), vec![""]);
    assert_eq!(split("a\n", '\n'), vec!["a", ""]);
    assert_eq!(split("\n\n", '\n'), vec!["", "", ""]);
    assert_eq!(split("abc", '\n'), vec!["abc"]);
}

#[test]
fn texts_are_ordered_as_the_standard_library_orders_them() {
    let corpus = ["", "a", "ab", "abc", "b", "B", "\u{e9}", "z\u{e9}", "\u{1f600}", "a\u{0}"];
    for a in corpus {
        for b in corpus {
            assert_eq!(stands_before(a, b), a < b);
        }
    }
}
