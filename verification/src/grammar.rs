//! The grammar of a citation.
//!
//! A citation is a book name, then optionally a chapter, then optionally a
//! colon and a verse. Chapter and verse are number tokens: a run of digits,
//! or two runs joined by a hyphen. White space may separate the book name
//! from the chapter. Of all the ways to cut a text into these parts, the one
//! with the shortest book name counts.
//!
//! Digits are `0` to `9` only, and word characters beyond ASCII are the
//! alphanumeric ones: see `text::is_digit` and `text::is_word` for what these
//! two rules leave out.

use vstd::prelude::*;
use crate::text::{
    chars_of, is_book_char, is_book_character, is_digit, is_digit_char, is_space_char,
    lemma_skip_spaces, skip_spaces, slice_string, trim_bounds, trimmed,
};

verus! {

/// End of the run of digits that starts at `from`; `from` itself where no
/// digit stands there.
pub open spec fn digit_run(s: Seq<char>, from: int) -> int
    decreases s.len() - from,
{
    if 0 <= from < s.len() && is_digit(s[from]) {
        digit_run(s, from + 1)
    } else {
        from
    }
}

/// End of the number token that starts at `from`: the digits there, with a
/// hyphen and further digits where they follow. `from` itself where no token
/// stands there.
pub open spec fn token_end(s: Seq<char>, from: int) -> int {
    let d = digit_run(s, from);
    if from < d < s.len() && s[d] == '-' && digit_run(s, d + 1) > d + 1 {
        digit_run(s, d + 1)
    } else {
        d
    }
}

/// Only white space is left of `s` from `from` on.
pub open spec fn blank_from(s: Seq<char>, from: int) -> bool {
    skip_spaces(s, from) >= s.len()
}

/// Chapter and verse as they stand in a citation.
pub struct Locator {
    pub chapter: Option<Seq<char>>,
    pub verse: Option<Seq<char>>,
}

/// The locator that fills `s` from `from` to its end: white space, then
/// nothing, a chapter, or a chapter with a colon and a verse directly behind
/// it, then white space. `None` where the rest of `s` is not of that form.
pub open spec fn locator_at(s: Seq<char>, from: int) -> Option<Locator> {
    let a = skip_spaces(s, from);
    let c = token_end(s, a);
    let v = token_end(s, c + 1);
    if a >= s.len() {
        Some(Locator { chapter: None, verse: None })
    } else if c == a {
        None
    } else if blank_from(s, c) {
        Some(Locator { chapter: Some(s.subrange(a, c)), verse: None })
    } else if s[c] == ':' && v > c + 1 && blank_from(s, v) {
        Some(Locator { chapter: Some(s.subrange(a, c)), verse: Some(s.subrange(c + 1, v)) })
    } else {
        None
    }
}

/// `s` can be cut after `n` characters: they may all stand in a book name,
/// and a locator fills the rest.
pub open spec fn splits_at(s: Seq<char>, n: int) -> bool {
    &&& 1 <= n <= s.len()
    &&& forall|i: int| 0 <= i < n ==> is_book_char(#[trigger] s[i])
    &&& locator_at(s, n) is Some
}

/// The first length at or after `n` at which `s` can be cut, given that the
/// characters before `n - 1` may all stand in a book name.
pub open spec fn split_len_from(s: Seq<char>, n: int) -> Option<int>
    decreases s.len() - n,
{
    if n < 1 || n > s.len() || !is_book_char(s[n - 1]) {
        None
    } else if locator_at(s, n) is Some {
        Some(n)
    } else {
        split_len_from(s, n + 1)
    }
}

/// The parts of a citation, as texts.
pub struct CitationView {
    pub book: Seq<char>,
    pub chapter: Option<Seq<char>>,
    pub verse: Option<Seq<char>>,
}

/// The parts of `s`, cut at the shortest book name that leaves a locator;
/// `None` where `s` cannot be cut at all.
pub open spec fn citation_split(s: Seq<char>) -> Option<CitationView> {
    match split_len_from(s, 1) {
        Some(n) => Some(
            CitationView {
                book: s.subrange(0, n),
                chapter: locator_at(s, n)->0.chapter,
                verse: locator_at(s, n)->0.verse,
            },
        ),
        None => None,
    }
}

/// A non-empty run of digits.
pub open spec fn all_digits(t: Seq<char>) -> bool {
    t.len() > 0 && forall|i: int| 0 <= i < t.len() ==> is_digit(#[trigger] t[i])
}

/// A number token: digits, or digits, a hyphen and digits.
pub open spec fn is_number_token(t: Seq<char>) -> bool {
    all_digits(t) || exists|k: int|
        0 < k < t.len() - 1 && #[trigger] t[k] == '-' && all_digits(t.subrange(0, k)) && all_digits(
            t.subrange(k + 1, t.len() as int),
        )
}

/// Between `from` and `digit_run` stand digits only, and what `digit_run`
/// stops at is none.
pub proof fn lemma_digit_run(s: Seq<char>, from: int)
    requires
        0 <= from <= s.len(),
    ensures
        from <= digit_run(s, from) <= s.len(),
        forall|i: int| from <= i < digit_run(s, from) ==> is_digit(#[trigger] s[i]),
        digit_run(s, from) < s.len() ==> !is_digit(s[digit_run(s, from)]),
    decreases s.len() - from,
{
    if from < s.len() && is_digit(s[from]) {
        lemma_digit_run(s, from + 1);
    }
}

/// What stands between `from` and the end of the token there is a number
/// token, and the token ends before a character that could continue it.
pub proof fn lemma_token_end(s: Seq<char>, from: int)
    requires
        0 <= from <= s.len(),
    ensures
        from <= token_end(s, from) <= s.len(),
        token_end(s, from) > from ==> is_number_token(s.subrange(from, token_end(s, from))),
        token_end(s, from) < s.len() ==> !is_digit(s[token_end(s, from)]),
{
    lemma_digit_run(s, from);
    let d = digit_run(s, from);
    if from < d < s.len() && s[d] == '-' {
        lemma_digit_run(s, d + 1);
    }
}

/// The parts of a locator are number tokens, and a verse never comes without
/// a chapter.
pub proof fn lemma_locator_tokens(s: Seq<char>, from: int)
    requires
        0 <= from <= s.len(),
        locator_at(s, from) is Some,
    ensures
        locator_at(s, from)->0.chapter matches Some(c) ==> is_number_token(c),
        locator_at(s, from)->0.verse matches Some(v) ==> is_number_token(v),
        locator_at(s, from)->0.verse is Some ==> locator_at(s, from)->0.chapter is Some,
{
    lemma_skip_spaces(s, from);
    let a = skip_spaces(s, from);
    lemma_token_end(s, a);
    let c = token_end(s, a);
    if c < s.len() {
        lemma_token_end(s, c + 1);
    }
}

/// The cut that `split_len_from` finds is a cut, and the first one.
pub proof fn lemma_split_len(s: Seq<char>, n: int)
    requires
        1 <= n,
        forall|i: int| 0 <= i < n - 1 ==> is_book_char(#[trigger] s[i]),
    ensures
        split_len_from(s, n) matches Some(m) ==> n <= m && splits_at(s, m) && forall|k: int|
            n <= k < m ==> !splits_at(s, k),
        split_len_from(s, n) is None ==> forall|k: int| n <= k ==> !splits_at(s, k),
    decreases s.len() - n,
{
    if n <= s.len() && is_book_char(s[n - 1]) && locator_at(s, n) is None {
        lemma_split_len(s, n + 1);
    }
}

/// The parts of a citation, as strings.
#[derive(Debug, PartialEq)]
pub struct Citation {
    pub book: String,
    pub chapter: Option<String>,
    pub verse: Option<String>,
}

impl View for Citation {
    type V = CitationView;

    open spec fn view(&self) -> CitationView {
        CitationView {
            book: self.book@,
            chapter: match self.chapter {
                Some(c) => Some(c@),
                None => None,
            },
            verse: match self.verse {
                Some(v) => Some(v@),
                None => None,
            },
        }
    }
}

/// The parts of an optional citation.
pub open spec fn citation_opt_view(c: Option<Citation>) -> Option<CitationView> {
    match c {
        Some(c) => Some(c@),
        None => None,
    }
}

/// End of the white space that starts at `from`.
fn scan_spaces(t: &Vec<char>, from: usize) -> (end: usize)
    requires
        from <= t.len(),
    ensures
        end == skip_spaces(t@, from as int),
        from <= end <= t.len(),
{
    let n: usize = t.len();
    let mut i: usize = from;
    while i < n && is_space_char(t[i])
        invariant
            from <= i <= n,
            n == t.len(),
            skip_spaces(t@, i as int) == skip_spaces(t@, from as int),
        decreases n - i,
    {
        i = i + 1;
    }
    i
}

/// End of the digits that start at `from`.
fn scan_digits(t: &Vec<char>, from: usize) -> (end: usize)
    requires
        from <= t.len(),
    ensures
        end == digit_run(t@, from as int),
        from <= end <= t.len(),
{
    let n: usize = t.len();
    let mut i: usize = from;
    while i < n && is_digit_char(t[i])
        invariant
            from <= i <= n,
            n == t.len(),
            digit_run(t@, i as int) == digit_run(t@, from as int),
        decreases n - i,
    {
        i = i + 1;
    }
    i
}

/// End of the number token that starts at `from`.
fn scan_token(t: &Vec<char>, from: usize) -> (end: usize)
    requires
        from <= t.len(),
    ensures
        end == token_end(t@, from as int),
        from <= end <= t.len(),
{
    let d = scan_digits(t, from);
    if from < d && d < t.len() && t[d] == '-' {
        let e = scan_digits(t, d + 1);
        if e > d + 1 {
            return e;
        }
    }
    d
}

/// Where chapter and verse stand in `t`, each as the two ends of its token.
struct Spans {
    chapter: Option<(usize, usize)>,
    verse: Option<(usize, usize)>,
}

/// The text between the two ends of a span.
spec fn span_text(s: Seq<char>, span: Option<(usize, usize)>) -> Option<Seq<char>> {
    match span {
        Some((a, b)) => Some(s.subrange(a as int, b as int)),
        None => None,
    }
}

/// The locator that fills `t` from `from` to its end, if there is one.
fn scan_locator(t: &Vec<char>, from: usize) -> (found: Option<Spans>)
    requires
        from <= t.len(),
    ensures
        found is Some == locator_at(t@, from as int) is Some,
        found matches Some(spans) ==> {
            &&& span_text(t@, spans.chapter) == locator_at(t@, from as int)->0.chapter
            &&& span_text(t@, spans.verse) == locator_at(t@, from as int)->0.verse
            &&& spans.chapter matches Some((a, b)) ==> from <= a <= b <= t.len()
            &&& spans.verse matches Some((a, b)) ==> from <= a <= b <= t.len()
        },
{
    let n: usize = t.len();
    let a = scan_spaces(t, from);
    if a >= n {
        return Some(Spans { chapter: None, verse: None });
    }
    let c = scan_token(t, a);
    if c == a {
        return None;
    }
    if scan_spaces(t, c) >= n {
        return Some(Spans { chapter: Some((a, c)), verse: None });
    }
    if t[c] != ':' {
        return None;
    }
    let v = scan_token(t, c + 1);
    if v > c + 1 && scan_spaces(t, v) >= n {
        Some(Spans { chapter: Some((a, c)), verse: Some((c + 1, v)) })
    } else {
        None
    }
}

/// The string of a span, counted from `base` in `text`.
fn span_string(text: &str, base: usize, span: Option<(usize, usize)>) -> (s: Option<String>)
    requires
        span matches Some((a, b)) ==> a <= b && base + b <= text@.len(),
        text@.len() <= usize::MAX,
    ensures
        s is Some == span is Some,
        span matches Some((a, b)) ==> s->0@ == text@.subrange(base + a, base + b),
{
    match span {
        Some((a, b)) => Some(slice_string(text, base + a, base + b)),
        None => None,
    }
}

/// Cuts `text`, without the white space at its ends, into book name, chapter
/// and verse.
///
/// A chapter or verse must be written with the digits `0` to `9`: digits of
/// other scripts are not taken for digits, and a verse written with them is
/// not cut. A
/// book name may hold ASCII letters, digits, underscores, hyphens, white
/// space and, beyond ASCII, alphanumeric characters; combining marks and
/// other connector punctuation are not accepted in it.
pub fn split_citation(text: &str) -> (parts: Option<Citation>)
    ensures
        citation_opt_view(parts) == citation_split(trimmed(text@)),
{
    let whole = chars_of(text);
    let (start, end) = trim_bounds(&whole);
    let mut t: Vec<char> = Vec::new();
    let mut k: usize = start;
    while k < end
        invariant
            start <= k <= end <= whole.len(),
            t@ == whole@.subrange(start as int, k as int),
        decreases end - k,
    {
        t.push(whole[k]);
        k = k + 1;
    }
    let n: usize = t.len();
    let mut i: usize = 0;
    while i < n && is_book_character(t[i])
        invariant
            i <= n,
            n == t.len(),
            n == end - start,
            end <= text@.len() <= usize::MAX,
            t@ == text@.subrange(start as int, end as int),
            t@ == trimmed(text@),
            split_len_from(t@, i + 1) == split_len_from(t@, 1),
        decreases n - i,
    {
        if let Some(spans) = scan_locator(&t, i + 1) {
            let book = slice_string(text, start, start + i + 1);
            let chapter = span_string(text, start, spans.chapter);
            let verse = span_string(text, start, spans.verse);
            let parts = Citation { book, chapter, verse };
            proof {
                let located = locator_at(t@, i + 1)->0;
                assert(book@ =~= t@.subrange(0, i + 1));
                assert(parts@.chapter == located.chapter);
                assert(parts@.verse == located.verse);
            }
            return Some(parts);
        }
        i = i + 1;
    }
    None
}

/// A run of digits that ends at `to` is the run that `digit_run` finds.
pub proof fn lemma_digit_run_is(s: Seq<char>, from: int, to: int)
    requires
        0 <= from <= to <= s.len(),
        forall|i: int| from <= i < to ==> is_digit(#[trigger] s[i]),
        to < s.len() ==> !is_digit(s[to]),
    ensures
        digit_run(s, from) == to,
    decreases to - from,
{
    if from < to {
        lemma_digit_run_is(s, from + 1, to);
    }
}

/// A text is a number token exactly where the token at its start fills it.
pub proof fn lemma_number_token(t: Seq<char>)
    ensures
        is_number_token(t) <==> (t.len() > 0 && token_end(t, 0) == t.len()),
{
    lemma_token_end(t, 0);
    if t.len() > 0 && token_end(t, 0) == t.len() {
        assert(t.subrange(0, t.len() as int) =~= t);
    }
    if is_number_token(t) {
        if all_digits(t) {
            lemma_digit_run_is(t, 0, t.len() as int);
        } else {
            let k = choose|k: int|
                0 < k < t.len() - 1 && #[trigger] t[k] == '-' && all_digits(t.subrange(0, k))
                    && all_digits(t.subrange(k + 1, t.len() as int));
            assert forall|i: int| 0 <= i < k implies is_digit(#[trigger] t[i]) by {
                assert(t[i] == t.subrange(0, k)[i]);
            }
            assert forall|i: int| k + 1 <= i < t.len() implies is_digit(#[trigger] t[i]) by {
                assert(t[i] == t.subrange(k + 1, t.len() as int)[i - k - 1]);
            }
            lemma_digit_run_is(t, 0, k);
            lemma_digit_run_is(t, k + 1, t.len() as int);
        }
    }
}

/// Whether `s` is a number token.
pub fn is_token_text(s: &str) -> (b: bool)
    ensures
        b == is_number_token(s@),
{
    let v = chars_of(s);
    proof {
        lemma_number_token(v@);
    }
    v.len() > 0 && scan_token(&v, 0) == v.len()
}

} // verus!
