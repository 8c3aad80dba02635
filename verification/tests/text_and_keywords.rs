use memcontext::keywords::{extract_keywords, score_content, split_whitespace};
use memcontext::text::{contains_chars, contains_ignoring_case};

fn words(v: &[&str]) -> Vec<String> {
    v.iter().map(|s| s.to_string()).collect()
}

#[test]
fn contains_chars_finds_runs() {
    let hay: Vec<char> = "hello world".chars().collect();
    let yes: Vec<char> = "o w".chars().collect();
    let no: Vec<char> = "ow".chars().collect();
    let empty: Vec<char> = Vec::new();
    let long: Vec<char> = "hello world!".chars().collect();
    assert!(contains_chars(&hay, &yes));
    assert!(!contains_chars(&hay, &no));
    assert!(contains_chars(&hay, &empty));
    assert!(contains_chars(&empty, &empty));
    assert!(!contains_chars(&hay, &long));
    assert!(contains_chars(&hay, &hay));
}

#[test]
fn contains_ignoring_case_lowercases_both() {
    assert!(contains_ignoring_case("My name is Zhang San", "zhang"));
    assert!(contains_ignoring_case("rust", "RUST"));
    assert!(!contains_ignoring_case("rust", "rusty"));
}

#[test]
fn extract_keywords_splits_words_and_ideographs() {
    assert_eq!(extract_keywords("Zhang San"), words(&["Zhang", "San"]));
    assert_eq!(extract_keywords("  my   name "), words(&["my", "name"]));
    assert_eq!(extract_keywords("我叫张三"), words(&["我", "叫", "张", "三"]));
    assert_eq!(extract_keywords("rust语言abc"), words(&["rust", "语", "言", "abc"]));
    assert_eq!(extract_keywords("a\tb\nc"), words(&["a", "b", "c"]));
    assert_eq!(extract_keywords(""), words(&[]));
    assert_eq!(extract_keywords("\u{3000}x"), words(&["x"]));
}

#[test]
fn score_counts_matching_keywords() {
    let kws = words(&["apple", "BANANA", "apple"]);
    assert_eq!(score_content("Apple and banana", &kws), 3);
    assert_eq!(score_content("banana", &kws), 1);
    assert_eq!(score_content("cherry", &kws), 0);
    assert_eq!(score_content("cherry", &words(&[])), 0);
}

#[test]
fn split_whitespace_matches_std() {
    for text in ["a b  c", "  lead", "trail  ", "", "one", "x\u{3000}y\u{00a0}z"] {
        let expected: Vec<String> = text.split_whitespace().map(|s| s.to_string()).collect();
        assert_eq!(split_whitespace(text), expected);
    }
}

#[test]
fn searchable_queries_stay_below_u_a000() {
    assert!(memcontext::keywords::query_is_searchable("hello 世界"));
    assert!(memcontext::keywords::query_is_searchable(""));
    assert!(!memcontext::keywords::query_is_searchable("hi 😀"));
    assert!(!memcontext::keywords::query_is_searchable("\u{a000}"));
}

#[test]
fn white_space_matches_std_on_every_char() {
    for u in 0..=0x10FFFFu32 {
        if let Some(c) = char::from_u32(u) {
            assert_eq!(memcontext::text::is_white_space(c), c.is_whitespace(), "U+{:04X}", u);
        }
    }
}
