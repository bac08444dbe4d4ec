use lenz::fold::{fold, fold_str, pick_fold, width};
use lenz::offsets::offsets;
use lenz::scan::{count, find, matches_at};
use lenz::{count_query, find_all};

fn chars(text: &str) -> Vec<char> {
    text.chars().collect()
}

#[test]
fn find_all_reports_both_literal_occurrences() {
    let text = "Just for testing ... lenz is cool. YES! lenz is super cool!";
    let spans = find_all("lenz", text, false);
    assert_eq!(spans, Some(vec![(21, 4), (40, 4)]));
    assert_eq!(&text[21..25], "lenz");
    assert_eq!(&text[40..44], "lenz");
}

#[test]
fn find_all_is_absent_without_an_occurrence() {
    assert_eq!(find_all("lenz", "Just for testing ...", false), None);
    assert_eq!(find_all("lenz", "", false), None);
    assert_eq!(find_all("lenz", "len", true), None);
    assert_eq!(find_all("lenz", "LENZ", false), None);
}

#[test]
fn find_all_is_present_with_an_occurrence() {
    assert_eq!(find_all("z", "lenz", false), Some(vec![(3, 1)]));
    assert_eq!(find_all("lenz", "lenz", false), Some(vec![(0, 4)]));
    assert_eq!(find_all("lenz", "LENZ", true), Some(vec![(0, 4)]));
}

#[test]
fn the_empty_query_occurs_nowhere() {
    assert_eq!(find_all("", "abc", false), None);
    assert_eq!(find_all("", "abc", true), None);
    assert_eq!(find_all("", "", false), None);
    assert_eq!(count_query("", "abc", false), None);
    assert_eq!(count_query("", "", true), None);
}

#[test]
fn occurrences_do_not_overlap() {
    assert_eq!(find_all("aa", "aaa", false), Some(vec![(0, 2)]));
    assert_eq!(find_all("aa", "aaaa", false), Some(vec![(0, 2), (2, 2)]));
    assert_eq!(find_all("aba", "ababababa", false), Some(vec![(0, 3), (4, 3)]));
    assert_eq!(count_query("aa", "aaa", false), Some(1));
    assert_eq!(count_query("aa", "aaaaa", false), Some(2));
}

#[test]
fn consecutive_spans_are_apart() {
    let spans = find_all("ab", "abxabABabab", true).unwrap();
    assert_eq!(spans, vec![(0, 2), (3, 2), (5, 2), (7, 2), (9, 2)]);
    for pair in spans.windows(2) {
        assert!(pair[0].0 + pair[0].1 <= pair[1].0);
    }
}

#[test]
fn spans_lie_inside_the_text() {
    let text = "xxlenzxxLenZ";
    let spans = find_all("lenz", text, true).unwrap();
    assert_eq!(spans, vec![(2, 4), (8, 4)]);
    for (start, length) in spans {
        assert!(length > 0);
        assert!(start + length <= text.len());
    }
}

#[test]
fn ignoring_case_finds_no_fewer() {
    let cases = [
        ("lenz", "lenz Lenz LENZ lenz"),
        ("Ab", "abABaBAb"),
        ("aA", "aAaaAA"),
        ("x", "no match here"),
        ("", "anything"),
        ("aa", "aAaaA"),
        ("ö", "Öl und öl und ÖL"),
        ("ЖУК", "жук Жук ЖУК"),
        ("\u{130}", "i \u{130} I"),
    ];
    for (query, text) in cases {
        let exact = count_query(query, text, false).unwrap_or(0);
        let folded = count_query(query, text, true).unwrap_or(0);
        assert!(folded >= exact);
    }
    assert_eq!(count_query("lenz", "lenz Lenz LENZ lenz", false), Some(2));
    assert_eq!(count_query("lenz", "lenz Lenz LENZ lenz", true), Some(4));
    assert_eq!(count_query("aa", "aAaaA", false), Some(1));
    assert_eq!(count_query("aa", "aAaaA", true), Some(2));
}

#[test]
fn count_query_counts_what_find_all_finds() {
    let text = "Just for testing ... lenz is cool. YES! lenz is super cool!";
    assert_eq!(count_query("lenz", text, false), Some(2));
    assert_eq!(count_query("LENZ", text, true), Some(2));
    assert_eq!(count_query("LENZ", text, false), None);
    assert_eq!(count_query("o", text, false), Some(5));
}

#[test]
fn the_query_is_folded_as_well() {
    assert_eq!(find_all("LENZ", "a lenz b", true), Some(vec![(2, 4)]));
    assert_eq!(find_all("LeNz", "a lEnZ b", true), Some(vec![(2, 4)]));
    assert_eq!(find_all("LENZ", "a lenz b", false), None);
}

#[test]
fn offsets_are_byte_offsets_of_the_given_text() {
    let text = "héllo wörld, HÉLLO";
    assert_eq!(find_all("llo", text, false), Some(vec![(3, 3)]));
    assert_eq!(find_all("llo", text, true), Some(vec![(3, 3), (18, 3)]));
    assert_eq!(&text[18..21], "LLO");
    assert_eq!(find_all("ö", text, false), Some(vec![(8, 2)]));
    assert_eq!(&text[8..10], "ö");
}

#[test]
fn letters_beyond_ascii_are_folded_too() {
    assert_eq!(find_all("é", "É", true), Some(vec![(0, 2)]));
    assert_eq!(find_all("É", "é", true), Some(vec![(0, 2)]));
    assert_eq!(find_all("é", "É", false), None);
    assert_eq!(find_all("привет", "ПРИВЕТ, мир", true), Some(vec![(0, 12)]));
    assert_eq!(find_all("ΣΟΦΙΑ", "η σοφια", true), Some(vec![(3, 10)]));
    assert_eq!(count_query("ö", "Öl und öl und ÖL", true), Some(3));
    assert_eq!(count_query("ö", "Öl und öl und ÖL", false), Some(1));
}

#[test]
fn a_character_that_would_move_the_text_is_not_folded() {
    assert_eq!(find_all("k", "\u{212a}", true), None);
    assert_eq!(find_all("\u{212a}", "\u{212a}", true), Some(vec![(0, 3)]));
    assert_eq!(find_all("i", "\u{130}", true), None);
    assert_eq!(find_all("\u{130}", "a\u{130}b", true), Some(vec![(1, 2)]));
    assert_eq!(find_all("ß", "\u{1e9e}", true), None);
    assert_eq!(find_all("b", "a\u{130}B", true), Some(vec![(3, 1)]));
}

#[test]
fn what_is_no_letter_is_not_folded() {
    assert_eq!(find_all("[", "{", true), None);
    assert_eq!(find_all("@", "`", true), None);
    assert_eq!(find_all("1", "!", true), None);
}

#[test]
fn fold_gives_the_lower_case() {
    assert_eq!(fold('A', true), 'a');
    assert_eq!(fold('Z', true), 'z');
    assert_eq!(fold('a', true), 'a');
    assert_eq!(fold('@', true), '@');
    assert_eq!(fold('[', true), '[');
    assert_eq!(fold('É', true), 'é');
    assert_eq!(fold('é', true), 'é');
    assert_eq!(fold('Я', true), 'я');
    assert_eq!(fold('日', true), '日');
}

#[test]
fn fold_keeps_what_would_change_its_width() {
    assert_eq!(fold('\u{212a}', true), '\u{212a}');
    assert_eq!(fold('\u{130}', true), '\u{130}');
    assert_eq!(fold('\u{1e9e}', true), '\u{1e9e}');
}

#[test]
fn fold_with_regard_to_case_keeps_the_character() {
    assert_eq!(fold('A', false), 'A');
    assert_eq!(fold('Q', false), 'Q');
    assert_eq!(fold('É', false), 'É');
}

#[test]
fn pick_fold_takes_a_single_character_of_the_same_width() {
    assert_eq!(pick_fold('É', &vec!['é']), 'é');
    assert_eq!(pick_fold('A', &vec!['a']), 'a');
    assert_eq!(pick_fold('\u{212a}', &vec!['k']), '\u{212a}');
    assert_eq!(pick_fold('\u{130}', &vec!['i', '\u{307}']), '\u{130}');
    assert_eq!(pick_fold('x', &Vec::new()), 'x');
}

#[test]
fn width_is_the_number_of_bytes_in_utf8() {
    assert_eq!(width('a'), 1);
    assert_eq!(width('\x7f'), 1);
    assert_eq!(width('\u{80}'), 2);
    assert_eq!(width('é'), 2);
    assert_eq!(width('\u{7ff}'), 2);
    assert_eq!(width('\u{800}'), 3);
    assert_eq!(width('日'), 3);
    assert_eq!(width('\u{ffff}'), 3);
    assert_eq!(width('\u{10000}'), 4);
    assert_eq!(width('🦀'), 4);
    for c in ['a', 'é', '日', '🦀', '\u{10ffff}'] {
        assert_eq!(width(c), c.len_utf8());
    }
}

#[test]
fn fold_str_folds_each_character() {
    assert_eq!(fold_str("LenZ É!", true), chars("lenz é!"));
    assert_eq!(fold_str("LenZ É!", false), chars("LenZ É!"));
    assert_eq!(fold_str("", true), chars(""));
}

#[test]
fn offsets_are_where_the_characters_begin() {
    assert_eq!(offsets("abc"), vec![0, 1, 2, 3]);
    assert_eq!(offsets("aé日🦀b"), vec![0, 1, 3, 6, 10, 11]);
    assert_eq!(offsets(""), vec![0]);
}

#[test]
fn matches_at_tests_one_offset() {
    let text = chars("a Lenz b");
    assert!(matches_at(&chars("Lenz"), &text, 2));
    assert!(!matches_at(&chars("lenz"), &text, 2));
    assert!(!matches_at(&chars("Lenz"), &text, 1));
    assert!(!matches_at(&chars("Lenz"), &text, 5));
    assert!(!matches_at(&chars("Lenz"), &text, 100));
    assert!(!matches_at(&chars(""), &text, 0));
}

#[test]
fn find_reports_offsets_in_characters() {
    assert_eq!(find(&chars("llo"), &chars("héllo wörld, hello")), vec![2, 15]);
    assert_eq!(find(&chars("aa"), &chars("aaaaa")), vec![0, 2]);
    assert_eq!(find(&chars("x"), &chars("abc")), Vec::<usize>::new());
    assert_eq!(find(&chars(""), &chars("abc")), Vec::<usize>::new());
    assert_eq!(find(&chars("abcd"), &chars("abc")), Vec::<usize>::new());
}

#[test]
fn count_counts_what_find_reports() {
    assert_eq!(count(&chars("llo"), &chars("héllo wörld, hello")), 2);
    assert_eq!(count(&chars("aa"), &chars("aaaaa")), 2);
    assert_eq!(count(&chars("x"), &chars("abc")), 0);
    assert_eq!(count(&chars(""), &chars("abc")), 0);
}
