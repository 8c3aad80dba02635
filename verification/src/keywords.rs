use vstd::prelude::*;
use crate::text::{
    chars_of, contains_ignoring_case, contains_seq, is_white_space, lowercase, string_of,
    unicode_white_space,
};

verus! {

/// A character of the CJK Unified Ideographs block (U+4E00 to U+9FFF).
pub open spec fn is_cjk(c: char) -> bool {
    0x4E00 <= (c as u32) <= 0x9FFF
}

/// A character that a query may hold: keyword extraction does not end on a
/// query holding a character above U+9FFF that is not white space.
pub open spec fn query_char_ok(c: char) -> bool {
    (c as u32) <= 0x9FFF
}

/// The end of the word that starts at `i`: the first position from `i` on that
/// holds white space or a character from U+4E00 up, or the end of `s`.
pub open spec fn word_end(s: Seq<char>, i: int) -> int
    decreases s.len() - i,
{
    if i < 0 || i >= s.len() || unicode_white_space(s[i]) || (s[i] as u32) >= 0x4E00 {
        i
    } else {
        word_end(s, i + 1)
    }
}

pub proof fn lemma_word_end_bounds(s: Seq<char>, i: int)
    requires
        0 <= i <= s.len(),
    ensures
        i <= word_end(s, i) <= s.len(),
        forall|k: int| i <= k < word_end(s, i) ==> !unicode_white_space(s[k]) && (s[k] as u32) < 0x4E00,
    decreases s.len() - i,
{
    if i < s.len() && !unicode_white_space(s[i]) && (s[i] as u32) < 0x4E00 {
        lemma_word_end_bounds(s, i + 1);
    }
}

/// Whether every character of the query is one that keyword extraction can
/// get past (see `query_char_ok`).
pub fn query_is_searchable(query: &str) -> (ok: bool)
    ensures
        ok == forall|i: int| 0 <= i < query@.len() ==> query_char_ok(#[trigger] query@[i]),
{
    let chars = chars_of(query);
    let mut i: usize = 0;
    while i < chars.len()
        invariant
            chars@ == query@,
            i <= chars@.len(),
            forall|k: int| 0 <= k < i ==> query_char_ok(#[trigger] query@[k]),
        decreases chars@.len() - i,
    {
        if (chars[i] as u32) > 0x9FFF {
            return false;
        }
        i += 1;
    }
    true
}

/// The keywords of `s` from position `i` on: each CJK ideograph on its own,
/// each maximal run of other characters between white space and ideographs.
pub open spec fn keywords_from(s: Seq<char>, i: int) -> Seq<Seq<char>>
    decreases s.len() - i,
{
    if i < 0 || i >= s.len() {
        Seq::empty()
    } else if is_cjk(s[i]) {
        seq![seq![s[i]]] + keywords_from(s, i + 1)
    } else if unicode_white_space(s[i]) {
        keywords_from(s, i + 1)
    } else {
        let j = word_end(s, i);
        if i < j <= s.len() {
            seq![s.subrange(i, j)] + keywords_from(s, j)
        } else {
            Seq::empty()
        }
    }
}

/// The keywords that a query is searched by.
pub open spec fn query_keywords(q: Seq<char>) -> Seq<Seq<char>> {
    keywords_from(q, 0)
}

/// The views of a sequence of strings.
pub open spec fn strings_view(v: Seq<String>) -> Seq<Seq<char>> {
    v.map_values(|s: String| s@)
}

/// Splits a query into keywords: every CJK ideograph (U+4E00 to U+9FFF) is a
/// keyword of its own, every other maximal run of characters that holds no
/// white space and no character from U+4E00 up is one keyword.
pub fn extract_keywords(query: &str) -> (kws: Vec<String>)
    requires
        forall|i: int| 0 <= i < query@.len() ==> query_char_ok(#[trigger] query@[i]),
    ensures
        strings_view(kws@) == query_keywords(query@),
{
    let chars = chars_of(query);
    let n = chars.len();
    let ghost s = query@;
    let mut kws: Vec<String> = Vec::new();
    let mut i: usize = 0;
    while i < n
        invariant
            chars@ == s,
            n == s.len(),
            i <= n,
            forall|k: int| 0 <= k < s.len() ==> query_char_ok(#[trigger] s[k]),
            strings_view(kws@) + keywords_from(s, i as int) == query_keywords(s),
        decreases n - i,
    {
        let c = chars[i];
        let code = c as u32;
        if 0x4E00 <= code && code <= 0x9FFF {
            let one = string_of(&chars[i..i + 1]);
            proof {
                assert(chars@.subrange(i as int, i + 1) =~= seq![c]);
            }
            let ghost before = kws@;
            kws.push(one);
            proof {
                assert(strings_view(kws@) =~= strings_view(before).push(seq![c]));
                assert(keywords_from(s, i as int) == seq![seq![c]] + keywords_from(s, i + 1));
                assert(strings_view(kws@) + keywords_from(s, i + 1) =~= strings_view(before)
                    + keywords_from(s, i as int));
            }
            i += 1;
        } else if is_white_space(c) {
            i += 1;
        } else {
            let start = i;
            proof {
                lemma_word_end_bounds(s, start as int);
            }
            while i < n && !is_white_space(chars[i]) && (chars[i] as u32) < 0x4E00
                invariant
                    chars@ == s,
                    n == s.len(),
                    start <= i <= n,
                    word_end(s, start as int) == word_end(s, i as int),
                decreases n - i,
            {
                i += 1;
            }
            proof {
                assert(word_end(s, i as int) == i);
                assert((code as int) < 0x4E00);
            }
            let word = string_of(&chars[start..i]);
            let ghost before = kws@;
            kws.push(word);
            proof {
                assert(strings_view(kws@) =~= strings_view(before).push(s.subrange(start as int, i as int)));
                assert(keywords_from(s, start as int) == seq![s.subrange(start as int, i as int)]
                    + keywords_from(s, i as int));
                assert(strings_view(kws@) + keywords_from(s, i as int) =~= strings_view(before)
                    + keywords_from(s, start as int));
            }
        }
    }
    proof {
        assert(keywords_from(s, i as int) == Seq::<Seq<char>>::empty());
        assert(strings_view(kws@) =~= strings_view(kws@) + keywords_from(s, i as int));
    }
    kws
}


/// How many of the keywords occur in `content`, both taken in lowercase; a
/// keyword given twice counts twice.
pub open spec fn keyword_score(content: Seq<char>, kws: Seq<Seq<char>>) -> nat
    decreases kws.len(),
{
    if kws.len() == 0 {
        0
    } else {
        keyword_score(content, kws.drop_last()) + if contains_seq(
            lowercase(content),
            lowercase(kws.last()),
        ) {
            1nat
        } else {
            0nat
        }
    }
}

pub proof fn lemma_keyword_score_bound(content: Seq<char>, kws: Seq<Seq<char>>)
    ensures
        keyword_score(content, kws) <= kws.len(),
    decreases kws.len(),
{
    if kws.len() > 0 {
        lemma_keyword_score_bound(content, kws.drop_last());
    }
}

/// The number of keywords that occur in `content`, ignoring case.
pub fn score_content(content: &str, kws: &Vec<String>) -> (r: u64)
    ensures
        r == keyword_score(content@, strings_view(kws@)),
{
    let mut count: usize = 0;
    let mut i: usize = 0;
    while i < kws.len()
        invariant
            i <= kws@.len(),
            count == keyword_score(content@, strings_view(kws@.take(i as int))),
            count <= i,
        decreases kws@.len() - i,
    {
        proof {
            assert(strings_view(kws@.take(i + 1)).drop_last() =~= strings_view(kws@.take(i as int)));
            assert(strings_view(kws@.take(i + 1)).last() == kws@[i as int]@);
        }
        if contains_ignoring_case(content, kws[i].as_str()) {
            count += 1;
        }
        i += 1;
    }
    proof {
        assert(kws@.take(i as int) =~= kws@);
    }
    count as u64
}

/// The end of the run of non-white-space characters that starts at `i`.
pub open spec fn run_end(s: Seq<char>, i: int) -> int
    decreases s.len() - i,
{
    if i < 0 || i >= s.len() || unicode_white_space(s[i]) {
        i
    } else {
        run_end(s, i + 1)
    }
}

pub proof fn lemma_run_end_bounds(s: Seq<char>, i: int)
    requires
        0 <= i <= s.len(),
    ensures
        i <= run_end(s, i) <= s.len(),
    decreases s.len() - i,
{
    if i < s.len() && !unicode_white_space(s[i]) {
        lemma_run_end_bounds(s, i + 1);
    }
}

/// The maximal runs of non-white-space characters of `s` from `i` on, as
/// `str::split_whitespace` yields them.
pub open spec fn words_from(s: Seq<char>, i: int) -> Seq<Seq<char>>
    decreases s.len() - i,
{
    if i < 0 || i >= s.len() {
        Seq::empty()
    } else if unicode_white_space(s[i]) {
        words_from(s, i + 1)
    } else {
        let j = run_end(s, i);
        if i < j <= s.len() {
            seq![s.subrange(i, j)] + words_from(s, j)
        } else {
            Seq::empty()
        }
    }
}

/// The words of `s` separated by white space.
pub open spec fn whitespace_words(s: Seq<char>) -> Seq<Seq<char>> {
    words_from(s, 0)
}

/// Splits a string at white space, dropping the white space, as
/// `str::split_whitespace` does.
pub fn split_whitespace(text: &str) -> (words: Vec<String>)
    ensures
        strings_view(words@) == whitespace_words(text@),
{
    let chars = chars_of(text);
    let n = chars.len();
    let ghost s = text@;
    let mut words: Vec<String> = Vec::new();
    let mut i: usize = 0;
    while i < n
        invariant
            chars@ == s,
            n == s.len(),
            i <= n,
            strings_view(words@) + words_from(s, i as int) == whitespace_words(s),
        decreases n - i,
    {
        if is_white_space(chars[i]) {
            i += 1;
        } else {
            let start = i;
            proof {
                lemma_run_end_bounds(s, start as int);
            }
            while i < n && !is_white_space(chars[i])
                invariant
                    chars@ == s,
                    n == s.len(),
                    start <= i <= n,
                    run_end(s, start as int) == run_end(s, i as int),
                decreases n - i,
            {
                i += 1;
            }
            let word = string_of(&chars[start..i]);
            let ghost before = words@;
            words.push(word);
            proof {
                assert(run_end(s, i as int) == i);
                assert(strings_view(words@) =~= strings_view(before).push(s.subrange(start as int, i as int)));
                assert(words_from(s, start as int) == seq![s.subrange(start as int, i as int)]
                    + words_from(s, i as int));
                assert(strings_view(words@) + words_from(s, i as int) =~= strings_view(before)
                    + words_from(s, start as int));
            }
        }
    }
    proof {
        assert(strings_view(words@) =~= strings_view(words@) + words_from(s, i as int));
    }
    words
}

} // verus!

verus! {

/// Every keyword of a query is non-empty and is either one CJK ideograph or
/// a run of characters below U+4E00 none of which is white space.
pub proof fn lemma_keywords_shape(s: Seq<char>, i: int)
    requires
        0 <= i <= s.len(),
        forall|k: int| 0 <= k < s.len() ==> query_char_ok(#[trigger] s[k]),
    ensures
        forall|k: int| 0 <= k < keywords_from(s, i).len() ==> (#[trigger] keywords_from(s, i)[k]).len() > 0,
        forall|k: int| 0 <= k < keywords_from(s, i).len() ==> {
            ||| ((#[trigger] keywords_from(s, i)[k]).len() == 1 && is_cjk(keywords_from(s, i)[k][0]))
            ||| forall|c: int| 0 <= c < keywords_from(s, i)[k].len() ==> {
                &&& !unicode_white_space(#[trigger] keywords_from(s, i)[k][c])
                &&& (keywords_from(s, i)[k][c] as u32) < 0x4E00
            }
        },
    decreases s.len() - i,
{
    if i < s.len() {
        let r = keywords_from(s, i);
        if is_cjk(s[i]) {
            lemma_keywords_shape(s, i + 1);
            let rest = keywords_from(s, i + 1);
            assert(r == seq![seq![s[i]]] + rest);
            assert forall|k: int| 1 <= k < r.len() implies r[k] == rest[k - 1] by {}
        } else if unicode_white_space(s[i]) {
            lemma_keywords_shape(s, i + 1);
            assert(r == keywords_from(s, i + 1));
        } else {
            lemma_word_end_bounds(s, i);
            lemma_word_end_bounds(s, i + 1);
            let j = word_end(s, i);
            assert(query_char_ok(s[i]));
            assert(j == word_end(s, i + 1));
            assert(j > i);
            lemma_keywords_shape(s, j);
            let rest = keywords_from(s, j);
            let w = s.subrange(i, j);
            assert(r == seq![w] + rest);
            assert forall|k: int| 1 <= k < r.len() implies r[k] == rest[k - 1] by {}
            assert forall|c: int| 0 <= c < w.len() implies !unicode_white_space(#[trigger] w[c]) && (w[c] as u32)
                < 0x4E00 by {
                assert(w[c] == s[i + c]);
            }
            assert(r[0] == w);
        }
    }
}

/// Every word of a white-space split is non-empty and holds no white space.
pub proof fn lemma_words_shape(s: Seq<char>, i: int)
    requires
        0 <= i <= s.len(),
    ensures
        forall|k: int| 0 <= k < words_from(s, i).len() ==> (#[trigger] words_from(s, i)[k]).len() > 0,
        forall|k: int, c: int|
            0 <= k < words_from(s, i).len() && 0 <= c < words_from(s, i)[k].len() ==> !unicode_white_space(
                #[trigger] words_from(s, i)[k][c],
            ),
    decreases s.len() - i,
{
    if i < s.len() {
        if unicode_white_space(s[i]) {
            lemma_words_shape(s, i + 1);
            assert(words_from(s, i) == words_from(s, i + 1));
        } else {
            lemma_run_end_bounds(s, i);
            let j = run_end(s, i);
            lemma_run_end_chars(s, i);
            lemma_words_shape(s, j);
            assert(i < j <= s.len());
            let r = words_from(s, i);
            let rest = words_from(s, j);
            let w = s.subrange(i, j);
            assert(r == seq![w] + rest);
            assert forall|k: int| 1 <= k < r.len() implies r[k] == rest[k - 1] by {}
            assert forall|c: int| 0 <= c < w.len() implies !unicode_white_space(#[trigger] w[c]) by {
                assert(w[c] == s[i + c]);
            }
        }
    }
}

proof fn lemma_run_end_chars(s: Seq<char>, i: int)
    requires
        0 <= i <= s.len(),
    ensures
        forall|k: int| i <= k < run_end(s, i) ==> !unicode_white_space(#[trigger] s[k]),
        i < s.len() && !unicode_white_space(s[i]) ==> run_end(s, i) > i,
    decreases s.len() - i,
{
    if i < s.len() && !unicode_white_space(s[i]) {
        lemma_run_end_chars(s, i + 1);
        lemma_run_end_bounds(s, i + 1);
    }
}

} // verus!
