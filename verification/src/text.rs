//! Character classes and the normal form of a name.
//!
//! Everything a citation is made of is classified here: white space, digits,
//! word characters and the characters a book name may hold. The module also
//! defines trimming and lower-casing, which together give the normal form
//! under which book names are looked up.
//!
//! White space is Unicode's. Digits and word characters are narrower than
//! Unicode's: a digit is one of `0` to `9`, and beyond ASCII a word character
//! is what the standard library calls alphanumeric. Both rules are stricter
//! on purpose and are stated with `is_digit` and `is_word`.

use vstd::prelude::*;

verus! {

/// White space: the code points that carry Unicode's `White_Space` property.
pub open spec fn is_space(c: char) -> bool {
    let n = c as u32;
    ||| 0x09 <= n <= 0x0D
    ||| n == 0x20
    ||| n == 0x85
    ||| n == 0xA0
    ||| n == 0x1680
    ||| 0x2000 <= n <= 0x200A
    ||| n == 0x2028
    ||| n == 0x2029
    ||| n == 0x202F
    ||| n == 0x205F
    ||| n == 0x3000
}

/// A decimal digit, `0` to `9`.
///
/// Only these ten count. The decimal digits of other scripts, which Unicode
/// classes as digits too, are no digits here: a chapter or verse written
/// with them is not recognised. The rule is stricter than a pattern over
/// Unicode digits would be, and it is meant so: what counts as a number goes
/// into an address as it stands.
pub open spec fn is_digit(c: char) -> bool {
    '0' <= c <= '9'
}

/// An ASCII letter.
pub open spec fn is_ascii_letter(c: char) -> bool {
    'a' <= c <= 'z' || 'A' <= c <= 'Z'
}

/// Whether the standard library counts `c` as alphanumeric. Only consulted
/// beyond ASCII, where the answer comes from the Unicode tables.
pub uninterp spec fn unicode_alphanumeric(c: char) -> bool;

/// `char::is_alphanumeric` of the standard library: its answer is the same for
/// the same character, and is named by `unicode_alphanumeric`. Nothing else is
/// claimed of it.
pub assume_specification[ char::is_alphanumeric ](c: char) -> (b: bool)
    ensures
        b == unicode_alphanumeric(c),
;

/// A word character: an ASCII letter, a digit, an underscore, or a
/// character beyond ASCII that is alphanumeric.
///
/// Beyond ASCII the standard library's notion of alphanumeric decides, which
/// is not Unicode's notion of a word character. A combining mark, a joiner
/// and connector punctuation other than the underscore are no word
/// characters here, so a book name written with them is not recognised; a
/// numeric character that is no decimal digit, such as a superscript two, is
/// one. Book names in ASCII are not touched by the difference.
pub open spec fn is_word(c: char) -> bool {
    ||| is_ascii_letter(c)
    ||| is_digit(c)
    ||| c == '_'
    ||| (c as u32 >= 0x80 && unicode_alphanumeric(c))
}

/// A character that may stand in a book name: a word character, white space
/// or a hyphen.
pub open spec fn is_book_char(c: char) -> bool {
    is_word(c) || is_space(c) || c == '-'
}

/// A character of a slug: an ASCII letter, a digit or a hyphen.
pub open spec fn is_slug_char(c: char) -> bool {
    is_ascii_letter(c) || is_digit(c) || c == '-'
}

/// A slug: a non-empty text of ASCII letters, digits and hyphens. Book and
/// series codes are slugs, so that they can stand in an address unchanged.
pub open spec fn is_slug(s: Seq<char>) -> bool {
    s.len() > 0 && forall|i: int| 0 <= i < s.len() ==> is_slug_char(#[trigger] s[i])
}

/// Whether `c` is white space.
pub fn is_space_char(c: char) -> (b: bool)
    ensures
        b == is_space(c),
{
    let n: u32 = c as u32;
    (0x09 <= n && n <= 0x0D) || n == 0x20 || n == 0x85 || n == 0xA0 || n == 0x1680 || (0x2000 <= n
        && n <= 0x200A) || n == 0x2028 || n == 0x2029 || n == 0x202F || n == 0x205F || n == 0x3000
}

/// Whether `c` is a decimal digit.
pub fn is_digit_char(c: char) -> (b: bool)
    ensures
        b == is_digit(c),
{
    '0' <= c && c <= '9'
}

/// Whether `c` is a word character.
pub fn is_word_char(c: char) -> (b: bool)
    ensures
        b == is_word(c),
{
    if (c as u32) < 0x80 {
        ('a' <= c && c <= 'z') || ('A' <= c && c <= 'Z') || ('0' <= c && c <= '9') || c == '_'
    } else {
        c.is_alphanumeric()
    }
}

/// Whether `c` may stand in a book name.
pub fn is_book_character(c: char) -> (b: bool)
    ensures
        b == is_book_char(c),
{
    is_word_char(c) || is_space_char(c) || c == '-'
}

/// The characters of `s`, one element per character.
pub fn chars_of(s: &str) -> (v: Vec<char>)
    ensures
        v@ == s@,
{
    let mut v: Vec<char> = Vec::new();
    for c in it: s.chars()
        invariant
            v@ == it.seq().take(it.index() as int),
            it.seq() == s@,
    {
        v.push(c);
    }
    v
}

/// Index of the first character at or after `from` that is not white space,
/// or the length of `s` where there is none.
pub open spec fn skip_spaces(s: Seq<char>, from: int) -> int
    decreases s.len() - from,
{
    if from < 0 || from >= s.len() {
        s.len() as int
    } else if !is_space(s[from]) {
        from
    } else {
        skip_spaces(s, from + 1)
    }
}

/// End of the text that is left of `s[..to]` once the white space at its end
/// is dropped: the index after the last character before `to` that is not
/// white space, or zero.
pub open spec fn drop_spaces(s: Seq<char>, to: int) -> int
    decreases to,
{
    if to <= 0 || to > s.len() {
        0
    } else if !is_space(s[to - 1]) {
        to
    } else {
        drop_spaces(s, to - 1)
    }
}

/// `s` without the white space at its two ends.
pub open spec fn trimmed(s: Seq<char>) -> Seq<char> {
    let a = skip_spaces(s, 0);
    let b = drop_spaces(s, s.len() as int);
    if a < b {
        s.subrange(a, b)
    } else {
        Seq::empty()
    }
}

/// `c` with an ASCII capital replaced by its small letter.
pub open spec fn lower_char(c: char) -> char {
    if 'A' <= c <= 'Z' {
        ((c as u8) + 32) as char
    } else {
        c
    }
}

/// `s` with every ASCII capital replaced by its small letter.
pub open spec fn lowered(s: Seq<char>) -> Seq<char> {
    Seq::new(s.len(), |i: int| lower_char(s[i]))
}

/// `str::to_ascii_lowercase` of the standard library: a copy in which the
/// letters `A` to `Z` have become `a` to `z` and every other character is
/// unchanged.
pub assume_specification[ str::to_ascii_lowercase ](s: &str) -> (r: String)
    ensures
        r@ == lowered(s@),
;

/// The normal form of a name: trimmed, then lower-cased.
pub open spec fn normalized(s: Seq<char>) -> Seq<char> {
    lowered(trimmed(s))
}

/// No white space at either end.
pub open spec fn is_trimmed(s: Seq<char>) -> bool {
    s.len() > 0 ==> !is_space(s[0]) && !is_space(s[s.len() - 1])
}

/// No ASCII capital anywhere.
pub open spec fn is_lower(s: Seq<char>) -> bool {
    forall|i: int| 0 <= i < s.len() ==> !('A' <= #[trigger] s[i] <= 'Z')
}

/// A name that is its own normal form.
pub open spec fn is_normalized(s: Seq<char>) -> bool {
    is_trimmed(s) && is_lower(s)
}

/// Between `from` and `skip_spaces` stands white space only, and what
/// `skip_spaces` stops at is none.
pub proof fn lemma_skip_spaces(s: Seq<char>, from: int)
    requires
        0 <= from <= s.len(),
    ensures
        from <= skip_spaces(s, from) <= s.len(),
        forall|i: int| from <= i < skip_spaces(s, from) ==> is_space(#[trigger] s[i]),
        skip_spaces(s, from) < s.len() ==> !is_space(s[skip_spaces(s, from)]),
    decreases s.len() - from,
{
    if from < s.len() && is_space(s[from]) {
        lemma_skip_spaces(s, from + 1);
    }
}

/// Between `drop_spaces` and `to` stands white space only, and what stands
/// before `drop_spaces` is none.
pub proof fn lemma_drop_spaces(s: Seq<char>, to: int)
    requires
        0 <= to <= s.len(),
    ensures
        0 <= drop_spaces(s, to) <= to,
        forall|i: int| drop_spaces(s, to) <= i < to ==> is_space(#[trigger] s[i]),
        drop_spaces(s, to) > 0 ==> !is_space(s[drop_spaces(s, to) - 1]),
    decreases to,
{
    if to > 0 && is_space(s[to - 1]) {
        lemma_drop_spaces(s, to - 1);
    }
}

/// A name in normal form is left as it is by normalising.
pub proof fn lemma_normalized_fixed(s: Seq<char>)
    requires
        is_normalized(s),
    ensures
        normalized(s) == s,
{
    lemma_skip_spaces(s, 0);
    lemma_drop_spaces(s, s.len() as int);
}

/// Lower-casing twice is lower-casing once.
pub proof fn lemma_lowered_idempotent(s: Seq<char>)
    ensures
        lowered(lowered(s)) == lowered(s),
        is_lower(lowered(s)),
{
}

/// The two ends of the trimmed part of `v`.
pub fn trim_bounds(v: &Vec<char>) -> (ends: (usize, usize))
    ensures
        ends.0 <= ends.1 <= v.len(),
        v@.subrange(ends.0 as int, ends.1 as int) == trimmed(v@),
{
    let n: usize = v.len();
    let mut a: usize = 0;
    while a < n && is_space_char(v[a])
        invariant
            a <= n == v.len(),
            skip_spaces(v@, a as int) == skip_spaces(v@, 0),
        decreases n - a,
    {
        a = a + 1;
    }
    let mut b: usize = n;
    while b > 0 && is_space_char(v[b - 1])
        invariant
            b <= n == v.len(),
            drop_spaces(v@, b as int) == drop_spaces(v@, n as int),
        decreases b,
    {
        b = b - 1;
    }
    proof {
        lemma_skip_spaces(v@, 0);
        lemma_drop_spaces(v@, n as int);
    }
    if a < b {
        (a, b)
    } else {
        (a, a)
    }
}

/// Whether `a` and `b` hold the same characters.
pub fn same_text(a: &str, b: &str) -> (same: bool)
    ensures
        same == (a@ == b@),
{
    let x = chars_of(a);
    let y = chars_of(b);
    if x.len() != y.len() {
        return false;
    }
    let n: usize = x.len();
    let mut i: usize = 0;
    while i < n
        invariant
            i <= n,
            n == x.len(),
            n == y.len(),
            x@ == a@,
            y@ == b@,
            forall|j: int| 0 <= j < i ==> x@[j] == y@[j],
        decreases n - i,
    {
        if x[i] != y[i] {
            return false;
        }
        i = i + 1;
    }
    assert(x@ =~= y@);
    true
}

/// Whether `text` begins with the characters of `prefix`.
pub fn begins_with(text: &str, prefix: &Vec<char>) -> (b: bool)
    ensures
        b == prefix@.is_prefix_of(text@),
{
    let t = chars_of(text);
    let n: usize = prefix.len();
    if n > t.len() {
        return false;
    }
    let mut i: usize = 0;
    while i < n
        invariant
            i <= n,
            n == prefix.len(),
            n <= t.len(),
            t@ == text@,
            forall|j: int| 0 <= j < i ==> t@[j] == prefix@[j],
        decreases n - i,
    {
        if t[i] != prefix[i] {
            return false;
        }
        i = i + 1;
    }
    true
}

/// Whether `s` is in normal form.
pub fn is_normal_form(s: &str) -> (b: bool)
    ensures
        b == is_normalized(s@),
{
    let v = chars_of(s);
    let n: usize = v.len();
    if n > 0 && (is_space_char(v[0]) || is_space_char(v[n - 1])) {
        return false;
    }
    let mut i: usize = 0;
    while i < n
        invariant
            i <= n,
            n == v.len(),
            v@ == s@,
            forall|j: int| 0 <= j < i ==> !('A' <= #[trigger] v@[j] <= 'Z'),
        decreases n - i,
    {
        if 'A' <= v[i] && v[i] <= 'Z' {
            return false;
        }
        i = i + 1;
    }
    true
}

/// Whether `s` is a slug.
pub fn is_slug_text(s: &str) -> (b: bool)
    ensures
        b == is_slug(s@),
{
    let v = chars_of(s);
    let n: usize = v.len();
    if n == 0 {
        return false;
    }
    let mut i: usize = 0;
    while i < n
        invariant
            i <= n,
            n == v.len(),
            v@ == s@,
            forall|j: int| 0 <= j < i ==> is_slug_char(#[trigger] v@[j]),
        decreases n - i,
    {
        let c = v[i];
        let ok = ('a' <= c && c <= 'z') || ('A' <= c && c <= 'Z') || ('0' <= c && c <= '9') || c
            == '-';
        if !ok {
            return false;
        }
        i = i + 1;
    }
    true
}

/// Index of the first `c` in `s` at or after `from`, or the length of `s`
/// where there is none.
pub open spec fn find_from(s: Seq<char>, c: char, from: int) -> int
    decreases s.len() - from,
{
    if from < 0 || from >= s.len() {
        s.len() as int
    } else if s[from] == c {
        from
    } else {
        find_from(s, c, from + 1)
    }
}

/// No `c` stands between `from` and `find_from`, and what `find_from` stops
/// at is one.
pub proof fn lemma_find_from(s: Seq<char>, c: char, from: int)
    requires
        0 <= from <= s.len(),
    ensures
        from <= find_from(s, c, from) <= s.len(),
        forall|i: int| from <= i < find_from(s, c, from) ==> #[trigger] s[i] != c,
        find_from(s, c, from) < s.len() ==> s[find_from(s, c, from)] == c,
    decreases s.len() - from,
{
    if from < s.len() && s[from] != c {
        lemma_find_from(s, c, from + 1);
    }
}

/// Where `c` first stands at `at`, that is what `find_from` finds.
pub proof fn lemma_find_from_is(s: Seq<char>, c: char, from: int, at: int)
    requires
        0 <= from <= at <= s.len(),
        forall|i: int| from <= i < at ==> #[trigger] s[i] != c,
        at < s.len() ==> s[at] == c,
    ensures
        find_from(s, c, from) == at,
    decreases at - from,
{
    if from < at {
        lemma_find_from_is(s, c, from + 1, at);
    }
}

/// Index of the first `c` in `v`, or the length of `v`.
pub fn find_char(v: &Vec<char>, c: char) -> (at: usize)
    ensures
        at == find_from(v@, c, 0),
        at <= v.len(),
{
    let n: usize = v.len();
    let mut i: usize = 0;
    while i < n && v[i] != c
        invariant
            i <= n,
            n == v.len(),
            find_from(v@, c, i as int) == find_from(v@, c, 0),
        decreases n - i,
    {
        i = i + 1;
    }
    i
}

/// The string between two character positions of `text`.
pub fn slice_string(text: &str, from: usize, to: usize) -> (s: String)
    requires
        from <= to <= text@.len(),
    ensures
        s@ == text@.subrange(from as int, to as int),
{
    text.substring_char(from, to).to_owned()
}

} // verus!
