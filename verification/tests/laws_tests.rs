use lenz::fold::fold_str;
use lenz::style::{hg_query, ANSIStyle};
use lenz::{count_query, find_all};

/// A small generator of numbers, the same on every run.
struct Numbers(u64);

impl Numbers {
    fn next(&mut self, below: usize) -> usize {
        self.0 = self.0.wrapping_mul(6364136223846793005).wrapping_add(1442695040888963407);
        ((self.0 >> 33) as usize) % below
    }

    fn string(&mut self, alphabet: &[char], longest: usize) -> String {
        let length = self.next(longest + 1);
        (0..length).map(|_| alphabet[self.next(alphabet.len())]).collect()
    }
}

const ALPHABET: [char; 12] = ['a', 'A', 'b', 'B', 'é', 'É', 'я', 'Я', '日', '🦀', '\u{130}', ' '];

fn samples() -> Vec<(String, String)> {
    let mut numbers = Numbers(7);
    let mut all = Vec::new();
    for _ in 0..1500 {
        let query = numbers.string(&ALPHABET[..6], 3);
        let text = numbers.string(&ALPHABET, 24);
        all.push((query, text));
    }
    all
}

fn occurs_at(query: &[char], text: &[char], i: usize) -> bool {
    !query.is_empty() && i + query.len() <= text.len() && text[i..i + query.len()] == *query
}

fn strip(shown: &str) -> String {
    shown.replace(ANSIStyle::BGRed.as_str(), "").replace(ANSIStyle::Reset.as_str(), "")
}

#[test]
fn absence_means_no_occurrence_anywhere() {
    for (query, text) in samples() {
        for ignore_case in [false, true] {
            let q = fold_str(&query, ignore_case);
            let t = fold_str(&text, ignore_case);
            let anywhere = (0..t.len()).any(|i| occurs_at(&q, &t, i));
            assert_eq!(find_all(&query, &text, ignore_case).is_some(), anywhere);
            assert_eq!(count_query(&query, &text, ignore_case).is_some(), anywhere);
        }
    }
}

#[test]
fn spans_are_occurrences_in_the_given_text() {
    for (query, text) in samples() {
        for ignore_case in [false, true] {
            let spans = find_all(&query, &text, ignore_case).unwrap_or_default();
            for (start, length) in spans {
                assert!(length > 0);
                assert_eq!(length, query.len());
                assert!(start + length <= text.len());
                assert!(text.is_char_boundary(start));
                assert!(text.is_char_boundary(start + length));
                let found = &text[start..start + length];
                assert_eq!(fold_str(found, ignore_case), fold_str(&query, ignore_case));
            }
        }
    }
}

#[test]
fn spans_ascend_and_do_not_overlap() {
    for (query, text) in samples() {
        for ignore_case in [false, true] {
            let spans = find_all(&query, &text, ignore_case).unwrap_or_default();
            for pair in spans.windows(2) {
                assert!(pair[0].0 + pair[0].1 <= pair[1].0);
            }
        }
    }
}

#[test]
fn no_occurrence_is_passed_over() {
    for (query, text) in samples() {
        for ignore_case in [false, true] {
            let q = fold_str(&query, ignore_case);
            let t = fold_str(&text, ignore_case);
            let spans = find_all(&query, &text, ignore_case).unwrap_or_default();
            for (i, (byte, _)) in text.char_indices().enumerate() {
                if occurs_at(&q, &t, i) {
                    let covered =
                        spans.iter().any(|&(start, length)| start <= byte && byte < start + length);
                    assert!(covered);
                }
            }
        }
    }
}

#[test]
fn the_count_is_the_number_of_spans() {
    for (query, text) in samples() {
        for ignore_case in [false, true] {
            let spans = find_all(&query, &text, ignore_case).unwrap_or_default();
            assert_eq!(count_query(&query, &text, ignore_case).unwrap_or(0), spans.len());
        }
    }
}

#[test]
fn ignoring_case_never_finds_fewer() {
    for (query, text) in samples() {
        let exact = count_query(&query, &text, false).unwrap_or(0);
        let folded = count_query(&query, &text, true).unwrap_or(0);
        assert!(folded >= exact);
    }
}

#[test]
fn stripping_gives_every_sample_back() {
    for (query, text) in samples() {
        for ignore_case in [false, true] {
            assert_eq!(strip(&hg_query(&query, &text, ignore_case)), text);
        }
    }
}

#[test]
fn highlighting_adds_two_markers_for_each_occurrence() {
    for (query, text) in samples() {
        for ignore_case in [false, true] {
            let count = count_query(&query, &text, ignore_case).unwrap_or(0);
            let shown = hg_query(&query, &text, ignore_case);
            assert_eq!(shown.matches(ANSIStyle::BGRed.as_str()).count(), count);
            assert_eq!(shown.matches(ANSIStyle::Reset.as_str()).count(), count);
            assert_eq!(shown.len(), text.len() + count * 9);
        }
    }
}

#[test]
fn folding_keeps_the_bytes_of_every_character() {
    for (_, text) in samples() {
        let folded = fold_str(&text, true);
        let given: Vec<char> = text.chars().collect();
        assert_eq!(folded.len(), given.len());
        for (f, g) in folded.iter().zip(given.iter()) {
            assert_eq!(f.len_utf8(), g.len_utf8());
        }
    }
}
