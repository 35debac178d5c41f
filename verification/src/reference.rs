//! Verses, references and the address a reference stands for.

use vstd::prelude::*;
use crate::address::{
    append_query_pair, into_text, is_address_of, is_plain_address, lemma_address_is_target,
    lemma_address_push, lemma_first_pair, lemma_next_pair, lemma_path_push, parse_address,
    push_segment, scheme_text, set_anchor, url_text,
};
use crate::grammar::{all_digits, is_number_token, is_token_text};
use crate::text::{
    chars_of, find_char, find_from, is_slug, is_slug_char, is_slug_text, lemma_find_from,
    lemma_find_from_is, slice_string,
};

verus! {

/// The first number of a verse token: the token itself, or what stands
/// before its hyphen.
pub open spec fn verse_first(v: Seq<char>) -> Seq<char> {
    v.subrange(0, find_from(v, '-', 0))
}

/// How a verse is named in the `id` of an address: `p` and the number, or,
/// for a range, both ends joined by a hyphen, each behind its own `p`.
pub open spec fn verse_id(v: Seq<char>) -> Seq<char> {
    let k = find_from(v, '-', 0);
    if k >= v.len() {
        seq!['p'] + v
    } else {
        seq!['p'] + v.subrange(0, k) + seq!['-', 'p'] + v.subrange(k + 1, v.len() as int)
    }
}

/// The anchor of a verse: `p` and its first number.
pub open spec fn verse_anchor(v: Seq<char>) -> Seq<char> {
    seq!['p'] + verse_first(v)
}

/// A verse as it goes into an address: its id, a hash sign, its anchor.
pub open spec fn verse_uri(v: Seq<char>) -> Seq<char> {
    verse_id(v) + seq!['#'] + verse_anchor(v)
}

/// A number token is a slug, and so are the id and the anchor made of it.
pub proof fn lemma_token_texts(v: Seq<char>)
    requires
        is_number_token(v),
    ensures
        is_slug(v),
        is_slug(verse_id(v)),
        is_slug(verse_anchor(v)),
        find_from(verse_uri(v), '#', 0) == verse_id(v).len(),
        verse_uri(v).len() == verse_id(v).len() + 1 + verse_anchor(v).len(),
{
    lemma_find_from(v, '-', 0);
    if !all_digits(v) {
        let j = choose|j: int|
            0 < j < v.len() - 1 && #[trigger] v[j] == '-' && all_digits(v.subrange(0, j))
                && all_digits(v.subrange(j + 1, v.len() as int));
        assert forall|i: int| 0 <= i < v.len() implies is_slug_char(#[trigger] v[i]) by {
            if i < j {
                assert(v[i] == v.subrange(0, j)[i]);
            } else if i > j {
                assert(v[i] == v.subrange(j + 1, v.len() as int)[i - j - 1]);
            }
        }
    }
    lemma_find_from_is(verse_uri(v), '#', 0, verse_id(v).len() as int);
}

/// A verse or a range of verses, kept as it was written.
#[derive(Debug, PartialEq)]
pub struct Verse {
    verse_str: String,
}

impl View for Verse {
    type V = Seq<char>;

    closed spec fn view(&self) -> Seq<char> {
        self.verse_str@
    }
}

/// Something that can be written into an address.
pub trait ToUriString {
    /// The text that `to_uri_string` gives.
    spec fn uri_text(&self) -> Seq<char>;

    fn to_uri_string(&self) -> (uri: String)
        ensures
            uri@ == self.uri_text(),
    ;
}

impl Verse {
    /// A verse is a number token.
    #[verifier::type_invariant]
    pub closed spec fn wf(&self) -> bool {
        is_number_token(self.verse_str@)
    }

    /// The verse written as `text`, where that is a number token.
    pub fn new(text: String) -> (made: Option<Verse>)
        ensures
            made is Some <==> is_number_token(text@),
            made matches Some(verse) ==> verse@ == text@ && verse.wf(),
    {
        if is_token_text(text.as_str()) {
            Some(Verse { verse_str: text })
        } else {
            None
        }
    }

    /// The verse as it was written.
    pub fn as_str(&self) -> (text: &str)
        ensures
            text@ == self@,
            is_number_token(self@),
    {
        proof {
            use_type_invariant(self);
        }
        self.verse_str.as_str()
    }
}

impl ToUriString for Verse {
    open spec fn uri_text(&self) -> Seq<char> {
        verse_uri(self@)
    }

    fn to_uri_string(&self) -> (uri: String) {
        let text = self.verse_str.as_str();
        let v = chars_of(text);
        let k = find_char(&v, '-');
        let n: usize = v.len();
        let mut uri = String::from_str("p");
        proof {
            reveal_strlit("p");
            reveal_strlit("-p");
            reveal_strlit("#p");
            lemma_find_from(v@, '-', 0);
        }
        if k < n {
            let first = text.substring_char(0, k);
            let last = text.substring_char(k + 1, n);
            uri.append(first);
            uri.append("-p");
            uri.append(last);
            uri.append("#p");
            uri.append(first);
        } else {
            uri.append(text);
            uri.append("#p");
            uri.append(text);
        }
        uri
    }
}

/// A reference, as texts.
pub struct ReferenceView {
    pub book: Seq<char>,
    pub chapter: Option<Seq<char>>,
    pub verse: Option<Seq<char>>,
    pub series: Seq<char>,
}

/// What makes a reference valid: book and series are slugs, chapter and verse
/// are number tokens, a verse comes only with a chapter, and the address is
/// no longer than the 32-bit offsets of the `url` crate reach.
pub open spec fn valid_reference(r: ReferenceView) -> bool {
    &&& is_slug(r.book)
    &&& is_slug(r.series)
    &&& r.chapter matches Some(c) ==> is_number_token(c)
    &&& r.verse matches Some(v) ==> is_number_token(v)
    &&& r.verse is Some ==> r.chapter is Some
    &&& address_of(r).len() <= u32::MAX
}

/// Where the scripture library keeps its books.
pub open spec fn site_root() -> Seq<char> {
    "https://www.churchofjesuschrist.org/study/scriptures"@
}

/// The address of the book: the site, the series and the book code.
pub open spec fn book_address(r: ReferenceView) -> Seq<char> {
    site_root() + seq!['/'] + r.series + seq!['/'] + r.book
}

/// The address down to the chapter, where there is one.
pub open spec fn chapter_address(r: ReferenceView) -> Seq<char> {
    match r.chapter {
        Some(c) => book_address(r) + seq!['/'] + c,
        None => book_address(r),
    }
}

/// The address that a reference stands for: the chapter's address, the
/// language, and for a verse its id and its anchor.
pub open spec fn address_of(r: ReferenceView) -> Seq<char> {
    let plain = chapter_address(r) + "?lang=eng"@;
    match r.verse {
        Some(v) => plain + "&id="@ + verse_id(v) + seq!['#'] + verse_anchor(v),
        None => plain,
    }
}

/// A citation, resolved: the book's code, its series, and chapter and verse as
/// they were written.
#[derive(Debug, PartialEq)]
pub struct Reference {
    book_abbr: String,
    chapter_opt: Option<String>,
    verse_opt: Option<Verse>,
    series: String,
}

impl View for Reference {
    type V = ReferenceView;

    closed spec fn view(&self) -> ReferenceView {
        ReferenceView {
            book: self.book_abbr@,
            chapter: match self.chapter_opt {
                Some(c) => Some(c@),
                None => None,
            },
            verse: match self.verse_opt {
                Some(v) => Some(v@),
                None => None,
            },
            series: self.series@,
        }
    }
}

/// The parts of an optional reference.
pub open spec fn reference_opt_view(r: Option<Reference>) -> Option<ReferenceView> {
    match r {
        Some(r) => Some(r@),
        None => None,
    }
}

/// The text of an optional verse.
pub open spec fn verse_opt_view(v: Option<Verse>) -> Option<Seq<char>> {
    match v {
        Some(v) => Some(v@),
        None => None,
    }
}

/// The book's address is a plain one.
proof fn lemma_book_address(r: ReferenceView)
    requires
        is_slug(r.series),
        is_slug(r.book),
    ensures
        is_plain_address(book_address(r)),
        site_root().len() == 52,
{
    reveal_strlit("https://www.churchofjesuschrist.org/study/scriptures");
    let root = site_root();
    let host = root.subrange(8, 35);
    let top = root.subrange(35, 52);
    lemma_path_push(top, r.series);
    lemma_path_push(top + seq!['/'] + r.series, r.book);
    let path = top + seq!['/'] + r.series + seq!['/'] + r.book;
    assert(book_address(r) =~= scheme_text() + host + path);
    assert(is_address_of(book_address(r), host, path));
}

/// The text of an optional string slice.
pub open spec fn opt_text(o: Option<&str>) -> Option<Seq<char>> {
    match o {
        Some(s) => Some(s@),
        None => None,
    }
}

/// Whether the address of these parts is no longer than the 32-bit offsets
/// of the `url` crate reach.
pub fn address_fits(
    book: &str,
    chapter: Option<&str>,
    verse: Option<&str>,
    series: &str,
) -> (fits: bool)
    ensures
        fits == (address_of(
            ReferenceView {
                book: book@,
                chapter: opt_text(chapter),
                verse: opt_text(verse),
                series: series@,
            },
        ).len() <= u32::MAX),
{
    proof {
        reveal_strlit("https://www.churchofjesuschrist.org/study/scriptures");
        reveal_strlit("?lang=eng");
        reveal_strlit("&id=");
    }
    let series_len: usize = series.unicode_len();
    let book_len: usize = book.unicode_len();
    let mut total: u128 = 52 + 1 + 1 + 9;
    total = total + series_len as u128 + book_len as u128;
    if let Some(chapter) = chapter {
        let chapter_len: usize = chapter.unicode_len();
        total = total + 1 + chapter_len as u128;
    }
    if let Some(verse) = verse {
        let chars = chars_of(verse);
        let dash = find_char(&chars, '-');
        let n: usize = chars.len();
        proof {
            lemma_find_from(chars@, '-', 0);
        }
        let id_len: u128 = if dash < n {
            n as u128 + 2
        } else {
            n as u128 + 1
        };
        total = total + 4 + id_len + 1 + 1 + dash as u128;
    }
    total <= 0xFFFF_FFFF
}

impl Reference {
    /// A reference is valid.
    #[verifier::type_invariant]
    pub closed spec fn wf(&self) -> bool {
        valid_reference(self@)
    }

    /// The reference with these parts, where they make a valid one.
    pub fn new(
        book_abbr: String,
        chapter_opt: Option<String>,
        verse_opt: Option<Verse>,
        series: String,
    ) -> (made: Option<Reference>)
        ensures
            made is Some <==> valid_reference(
                ReferenceView {
                    book: book_abbr@,
                    chapter: crate::registry::opt_view(chapter_opt),
                    verse: verse_opt_view(verse_opt),
                    series: series@,
                },
            ),
            made matches Some(r) ==> r.wf() && r@ == (ReferenceView {
                book: book_abbr@,
                chapter: crate::registry::opt_view(chapter_opt),
                verse: verse_opt_view(verse_opt),
                series: series@,
            }),
    {
        if !is_slug_text(book_abbr.as_str()) || !is_slug_text(series.as_str()) {
            return None;
        }
        match &chapter_opt {
            Some(c) => {
                if !is_token_text(c.as_str()) {
                    return None;
                }
            },
            None => {
                if verse_opt.is_some() {
                    return None;
                }
            },
        }
        let chapter = match &chapter_opt {
            Some(c) => Some(c.as_str()),
            None => None,
        };
        let verse = match &verse_opt {
            Some(v) => Some(v.as_str()),
            None => None,
        };
        if !address_fits(book_abbr.as_str(), chapter, verse, series.as_str()) {
            return None;
        }
        Some(Reference { book_abbr, chapter_opt, verse_opt, series })
    }

    /// What the invariant says of the parts.
    pub proof fn lemma_valid(&self)
        requires
            self.wf(),
        ensures
            valid_reference(self@),
    {
    }

    /// The reference with these parts, which must make a valid one.
    pub(crate) fn assemble(
        book_abbr: String,
        chapter_opt: Option<String>,
        verse_opt: Option<String>,
        series: String,
    ) -> (made: Reference)
        requires
            valid_reference(
                ReferenceView {
                    book: book_abbr@,
                    chapter: crate::registry::opt_view(chapter_opt),
                    verse: crate::registry::opt_view(verse_opt),
                    series: series@,
                },
            ),
        ensures
            made@ == (ReferenceView {
                book: book_abbr@,
                chapter: crate::registry::opt_view(chapter_opt),
                verse: crate::registry::opt_view(verse_opt),
                series: series@,
            }),
    {
        let verse_opt = match verse_opt {
            Some(text) => Some(Verse { verse_str: text }),
            None => None,
        };
        Reference { book_abbr, chapter_opt, verse_opt, series }
    }

    /// The code of the book.
    pub fn book(&self) -> (code: &str)
        ensures
            code@ == self@.book,
    {
        self.book_abbr.as_str()
    }

    /// The chapter, as it was written.
    pub fn chapter(&self) -> (chapter: Option<&str>)
        ensures
            chapter is Some == self@.chapter is Some,
            chapter matches Some(c) ==> c@ == self@.chapter->0,
    {
        match &self.chapter_opt {
            Some(c) => Some(c.as_str()),
            None => None,
        }
    }

    /// The verse, as it was written.
    pub fn verse(&self) -> (verse: Option<&Verse>)
        ensures
            verse is Some == self@.verse is Some,
            verse matches Some(v) ==> v@ == self@.verse->0,
    {
        match &self.verse_opt {
            Some(v) => Some(v),
            None => None,
        }
    }

    /// The code of the series that the book belongs to.
    pub fn series(&self) -> (code: &str)
        ensures
            code@ == self@.series,
    {
        self.series.as_str()
    }

    /// The address that the reference stands for. For a reference to a whole
    /// book that is the site, the series, the book code and the language,
    /// with no chapter, no id and no anchor.
    pub fn return_uri(&self) -> (uri: String)
        ensures
            uri@ == address_of(self@),
            self@.chapter is None && self@.verse is None ==> uri@ == site_root() + seq!['/']
                + self@.series + seq!['/'] + self@.book + "?lang=eng"@,
    {
        proof {
            use_type_invariant(self);
            lemma_book_address(self@);
            reveal_strlit("/");
            reveal_strlit("?lang=eng");
            reveal_strlit("&id=");
            reveal_strlit("lang");
            reveal_strlit("eng");
            reveal_strlit("id");
        }
        let mut base = String::from_str("https://www.churchofjesuschrist.org/study/scriptures");
        base.append("/");
        base.append(self.series.as_str());
        base.append("/");
        base.append(self.book_abbr.as_str());
        assert(base@ =~= book_address(self@));

        let mut url = match parse_address(base.as_str()) {
            Some(url) => url,
            None => vstd::pervasive::unreached(),
        };

        if let Some(chapter) = &self.chapter_opt {
            proof {
                lemma_token_texts(chapter@);
                lemma_address_push(book_address(self@), chapter@);
            }
            push_segment(&mut url, chapter.as_str());
        }
        let ghost plain = chapter_address(self@) + "?lang=eng"@;
        proof {
            lemma_address_is_target(chapter_address(self@));
            lemma_first_pair(chapter_address(self@), "lang"@, "eng"@);
        }
        append_query_pair(&mut url, "lang", "eng");
        assert(url_text(url) =~= plain);

        if let Some(verse) = &self.verse_opt {
            let uri_string = verse.to_uri_string();
            let chars = chars_of(uri_string.as_str());
            let at = find_char(&chars, '#');
            proof {
                use_type_invariant(verse);
                lemma_token_texts(verse@);
                lemma_next_pair(plain, "id"@, verse_id(verse@));
            }
            let id = slice_string(uri_string.as_str(), 0, at);
            let anchor = slice_string(uri_string.as_str(), at + 1, chars.len());
            assert(id@ =~= verse_id(verse@));
            append_query_pair(&mut url, "id", id.as_str());
            set_anchor(&mut url, anchor.as_str());
        }
        into_text(url)
    }
}

} // verus!
