//! What holds of every registry, every name and every reference.

use vstd::prelude::*;
use crate::grammar::{
    citation_split, is_number_token, lemma_locator_tokens, lemma_split_len, lemma_token_end,
    split_len_from, splits_at, token_end, CitationView,
};
use crate::reference::{
    address_of, chapter_address, lemma_token_texts, site_root, valid_reference, verse_anchor,
    verse_id, ReferenceView,
};
use crate::registry::{
    codes_have_series, exact_match, lemma_exact_absent, lemma_exact_found,
    lemma_exact_match_listed, lemma_match_has_series, lemma_prefix_match_first,
    lemma_resolved_is_value, lists, prefix_match, resolve_book, valid_aliases, valid_series,
};
use crate::resolve::parse_reference;
use crate::text::{
    find_from, is_book_char, is_normalized, is_space, lemma_drop_spaces, lemma_find_from,
    lemma_find_from_is, lemma_normalized_fixed, lemma_skip_spaces, normalized, skip_spaces,
    trimmed,
};

verus! {

/// The normal form of any name is in normal form: it has no white space at
/// its ends and no ASCII capital, and normalising it again changes nothing.
pub proof fn normal_form_is_normal(raw: Seq<char>)
    ensures
        is_normalized(normalized(raw)),
        normalized(normalized(raw)) == normalized(raw),
{
    lemma_skip_spaces(raw, 0);
    lemma_drop_spaces(raw, raw.len() as int);
    lemma_normalized_fixed(normalized(raw));
}

/// A name whose normal form is a registered alias resolves to the code of
/// that alias, whatever else the registry holds.
pub proof fn spelling_resolves_to_its_code(
    table: Seq<(Seq<char>, Seq<char>)>,
    raw: Seq<char>,
    code: Seq<char>,
)
    requires
        valid_aliases(table),
        lists(table, normalized(raw), code),
    ensures
        resolve_book(table, raw) == Some(code),
{
    let name = normalized(raw);
    let i = choose|i: int| 0 <= i < table.len() && #[trigger] table[i] == (name, code);
    lemma_exact_found(table, name, 0, i);
}

/// Every registered alias resolves to its own code.
pub proof fn alias_resolves_to_its_code(
    table: Seq<(Seq<char>, Seq<char>)>,
    alias: Seq<char>,
    code: Seq<char>,
)
    requires
        valid_aliases(table),
        lists(table, alias, code),
    ensures
        resolve_book(table, alias) == Some(code),
{
    let i = choose|i: int| 0 <= i < table.len() && #[trigger] table[i] == (alias, code);
    lemma_normalized_fixed(table[i].0);
    spelling_resolves_to_its_code(table, alias, code);
}

/// A book code that is registered as an alias of itself resolves to itself:
/// resolving what was already resolved changes nothing.
pub proof fn listed_code_resolves_to_itself(
    table: Seq<(Seq<char>, Seq<char>)>,
    raw: Seq<char>,
    code: Seq<char>,
)
    requires
        valid_aliases(table),
        resolve_book(table, raw) == Some(code),
        lists(table, code, code),
    ensures
        resolve_book(table, code) == resolve_book(table, raw),
{
    alias_resolves_to_its_code(table, code, code);
}

/// A name resolves to nothing exactly where no registered alias begins with
/// its normal form.
pub proof fn unknown_name_resolves_to_nothing(table: Seq<(Seq<char>, Seq<char>)>, raw: Seq<char>)
    ensures
        resolve_book(table, raw) is None <==> forall|i: int|
            0 <= i < table.len() ==> !normalized(raw).is_prefix_of((#[trigger] table[i]).0),
{
    let name = normalized(raw);
    lemma_prefix_match_first(table, name, 0);
    if exact_match(table, name) is Some {
        lemma_exact_match_listed(table, name, 0);
    }
}

/// Where no alias equals the normal form of a name, the first alias in the
/// order of the registry that begins with it decides.
pub proof fn first_longer_alias_decides(
    table: Seq<(Seq<char>, Seq<char>)>,
    raw: Seq<char>,
    first: int,
)
    requires
        0 <= first < table.len(),
        normalized(raw).is_prefix_of(table[first].0),
        forall|j: int| 0 <= j < first ==> !normalized(raw).is_prefix_of((#[trigger] table[j]).0),
        forall|j: int| 0 <= j < table.len() ==> (#[trigger] table[j]).0 != normalized(raw),
    ensures
        resolve_book(table, raw) == Some(table[first].1),
{
    lemma_exact_absent(table, normalized(raw), 0);
    lemma_prefix_match_first(table, normalized(raw), 0);
}

/// The text of a locator: nothing, the chapter, or the chapter, a colon and
/// the verse.
pub open spec fn locator_text(chapter: Option<Seq<char>>, verse: Option<Seq<char>>) -> Seq<char> {
    match (chapter, verse) {
        (Some(c), Some(v)) => c + seq![':'] + v,
        (Some(c), None) => c,
        (None, _) => Seq::empty(),
    }
}

/// White space only.
pub open spec fn all_spaces(s: Seq<char>) -> bool {
    forall|i: int| 0 <= i < s.len() ==> is_space(#[trigger] s[i])
}

/// `t` is the book name, white space, the locator and white space again.
pub open spec fn is_laid_out(
    t: Seq<char>,
    parts: CitationView,
    gap: Seq<char>,
    rest: Seq<char>,
) -> bool {
    &&& t == parts.book + gap + locator_text(parts.chapter, parts.verse) + rest
    &&& all_spaces(gap)
    &&& all_spaces(rest)
}

/// The parts of a citation fill its text: the text is the book name, white
/// space, the locator made of chapter and verse, and white space again. The
/// book name is not empty and holds only what may stand in a book name;
/// chapter and verse are number tokens, and there is no verse without a
/// chapter.
pub proof fn citation_parts_fill_the_text(t: Seq<char>)
    requires
        citation_split(t) is Some,
    ensures
        exists|gap: Seq<char>, rest: Seq<char>| #[trigger]
            is_laid_out(t, citation_split(t)->0, gap, rest),
        citation_split(t)->0.book.len() >= 1,
        forall|i: int|
            0 <= i < citation_split(t)->0.book.len() ==> is_book_char(
                #[trigger] citation_split(t)->0.book[i],
            ),
        citation_split(t)->0.chapter matches Some(c) ==> is_number_token(c),
        citation_split(t)->0.verse matches Some(v) ==> is_number_token(v),
        citation_split(t)->0.verse is Some ==> citation_split(t)->0.chapter is Some,
{
    let parts = citation_split(t)->0;
    lemma_split_len(t, 1);
    let n = split_len_from(t, 1)->0;
    lemma_locator_tokens(t, n);
    lemma_skip_spaces(t, n);
    let a = skip_spaces(t, n);
    let gap = t.subrange(n, a);
    if a >= t.len() {
        let rest = Seq::<char>::empty();
        assert(t =~= parts.book + gap + locator_text(parts.chapter, parts.verse) + rest);
        assert(is_laid_out(t, parts, gap, rest));
    } else {
        lemma_token_end(t, a);
        let c = token_end(t, a);
        let end = if parts.verse is Some {
            token_end(t, c + 1)
        } else {
            c
        };
        if parts.verse is Some {
            lemma_token_end(t, c + 1);
        }
        lemma_skip_spaces(t, end);
        let rest = t.subrange(end, t.len() as int);
        assert(t =~= parts.book + gap + locator_text(parts.chapter, parts.verse) + rest);
        assert(is_laid_out(t, parts, gap, rest));
    }
}

/// Of all the ways to cut a text, the one with the shortest book name
/// counts; a text that can be cut at all is cut.
pub proof fn shortest_book_name_counts(t: Seq<char>)
    ensures
        citation_split(t) matches Some(parts) ==> splits_at(t, parts.book.len() as int)
            && forall|n: int| n < parts.book.len() ==> !splits_at(t, n),
        citation_split(t) is None ==> forall|n: int| !splits_at(t, n),
{
    lemma_split_len(t, 1);
}

/// Where every book code has its series, whatever a name resolves to has
/// one, and so has the code of any alias that a text begins.
pub proof fn resolved_book_has_series(
    aliases: Seq<(Seq<char>, Seq<char>)>,
    series_table: Seq<(Seq<char>, Seq<char>)>,
    raw: Seq<char>,
)
    requires
        codes_have_series(aliases, series_table),
    ensures
        resolve_book(aliases, raw) matches Some(code) ==> exact_match(series_table, code) is Some,
        prefix_match(aliases, raw) matches Some(code) ==> exact_match(series_table, code) is Some,
{
    lemma_match_has_series(aliases, series_table, normalized(raw));
    lemma_match_has_series(aliases, series_table, raw);
}

/// Against tables in which every book code has its series, a text is a
/// reference exactly where it can be cut into a citation and its book name
/// resolves, unless its address would be too long to be built.
pub proof fn citation_of_known_book_is_a_reference(
    aliases: Seq<(Seq<char>, Seq<char>)>,
    series_table: Seq<(Seq<char>, Seq<char>)>,
    input: Seq<char>,
)
    requires
        codes_have_series(aliases, series_table),
    ensures
        parse_reference(aliases, series_table, input) matches Some(found) ==> {
            &&& citation_split(trimmed(input)) matches Some(parts)
            &&& resolve_book(aliases, parts.book) == Some(found.book)
            &&& exact_match(series_table, found.book) == Some(found.series)
            &&& found.chapter == parts.chapter
            &&& found.verse == parts.verse
        },
        parse_reference(aliases, series_table, input) is None ==> {
            ||| citation_split(trimmed(input)) is None
            ||| resolve_book(aliases, citation_split(trimmed(input))->0.book) is None
            ||| address_of(
                ReferenceView {
                    book: resolve_book(aliases, citation_split(trimmed(input))->0.book)->0,
                    chapter: citation_split(trimmed(input))->0.chapter,
                    verse: citation_split(trimmed(input))->0.verse,
                    series: exact_match(
                        series_table,
                        resolve_book(aliases, citation_split(trimmed(input))->0.book)->0,
                    )->0,
                },
            ).len() > u32::MAX
        },
{
    if let Some(parts) = citation_split(trimmed(input)) {
        resolved_book_has_series(aliases, series_table, parts.book);
    }
}

/// Whatever is parsed against valid tables is a valid reference: its book
/// and series are codes of the tables, its chapter and verse are number
/// tokens, and it has no verse without a chapter.
pub proof fn parsed_reference_is_valid(
    aliases: Seq<(Seq<char>, Seq<char>)>,
    series_table: Seq<(Seq<char>, Seq<char>)>,
    input: Seq<char>,
)
    requires
        valid_aliases(aliases),
        valid_series(series_table),
    ensures
        parse_reference(aliases, series_table, input) matches Some(r) ==> valid_reference(r),
{
    if let Some(r) = parse_reference(aliases, series_table, input) {
        let t = trimmed(input);
        lemma_split_len(t, 1);
        let n = split_len_from(t, 1)->0;
        lemma_locator_tokens(t, n);
        lemma_resolved_is_value(aliases, t.subrange(0, n));
        lemma_exact_match_listed(series_table, r.book, 0);
    }
}

/// The verse that an id was made of.
pub open spec fn verse_in(id: Seq<char>) -> Seq<char> {
    let dash = find_from(id, '-', 0);
    if dash >= id.len() {
        id.subrange(1, id.len() as int)
    } else {
        id.subrange(1, dash) + seq!['-'] + id.subrange(dash + 2, id.len() as int)
    }
}

/// The reference that an address was made of: series and book are the two
/// path segments behind the site, the chapter is a third one where there is
/// one, and the verse is read from the id.
pub open spec fn reference_in(t: Seq<char>) -> ReferenceView {
    let query = find_from(t, '?', 0);
    let series_end = find_from(t, '/', 53);
    let book_end = if find_from(t, '/', series_end + 1) < query {
        find_from(t, '/', series_end + 1)
    } else {
        query
    };
    let hash = find_from(t, '#', 0);
    ReferenceView {
        series: t.subrange(53, series_end),
        book: t.subrange(series_end + 1, book_end),
        chapter: if book_end < query {
            Some(t.subrange(book_end + 1, query))
        } else {
            None
        },
        verse: if hash < t.len() {
            Some(verse_in(t.subrange(query + 13, hash)))
        } else {
            None
        },
    }
}

/// An id gives back the verse it was made of.
pub proof fn id_gives_back_the_verse(v: Seq<char>)
    requires
        is_number_token(v),
    ensures
        verse_in(verse_id(v)) == v,
{
    lemma_token_texts(v);
    lemma_find_from(v, '-', 0);
    let dash = find_from(v, '-', 0);
    let id = verse_id(v);
    if dash >= v.len() {
        lemma_find_from_is(id, '-', 0, id.len() as int);
    } else {
        lemma_find_from_is(id, '-', 0, dash + 1);
    }
    assert(verse_in(id) =~= v);
}

/// An address gives back the reference it was made of.
pub proof fn address_gives_back_the_reference(r: ReferenceView)
    requires
        valid_reference(r),
    ensures
        reference_in(address_of(r)) == r,
{
    reveal_strlit("https://www.churchofjesuschrist.org/study/scriptures");
    reveal_strlit("?lang=eng");
    reveal_strlit("&id=");
    let t = address_of(r);
    let series_end: int = 53 + r.series.len() as int;
    let book_end: int = series_end + 1 + r.book.len();
    let query = chapter_address(r).len() as int;
    if let Some(c) = r.chapter {
        lemma_token_texts(c);
    }
    if let Some(v) = r.verse {
        lemma_token_texts(v);
        id_gives_back_the_verse(v);
    }
    lemma_find_from_is(t, '/', 53, series_end);
    assert(t.subrange(53, series_end) =~= r.series);
    assert(t.subrange(series_end + 1, book_end) =~= r.book);
    if let Some(c) = r.chapter {
        lemma_find_from_is(t, '/', series_end + 1, book_end);
        assert(t.subrange(book_end + 1, query) =~= c);
    } else {
        lemma_find_from(t, '/', series_end + 1);
    }
    lemma_find_from_is(t, '?', 0, query);
    if let Some(v) = r.verse {
        let hash: int = query + 13 + verse_id(v).len();
        lemma_find_from_is(t, '#', 0, hash);
        assert(t.subrange(query + 13, hash) =~= verse_id(v));
    } else {
        lemma_find_from_is(t, '#', 0, t.len() as int);
    }
}

/// Different references have different addresses.
pub proof fn different_references_have_different_addresses(a: ReferenceView, b: ReferenceView)
    requires
        valid_reference(a),
        valid_reference(b),
        address_of(a) == address_of(b),
    ensures
        a == b,
{
    address_gives_back_the_reference(a);
    address_gives_back_the_reference(b);
}

/// A reference to a whole book has an address without chapter, id and
/// anchor: the site, the series, the book code and the language, nothing
/// else. No hash sign and no ampersand stands in it.
pub proof fn book_only_address(r: ReferenceView)
    requires
        valid_reference(r),
        r.chapter is None,
        r.verse is None,
    ensures
        address_of(r) == site_root() + seq!['/'] + r.series + seq!['/'] + r.book + "?lang=eng"@,
        forall|i: int|
            0 <= i < address_of(r).len() ==> (#[trigger] address_of(r)[i]) != '#' && address_of(
                r,
            )[i] != '&',
{
    reveal_strlit("https://www.churchofjesuschrist.org/study/scriptures");
    reveal_strlit("?lang=eng");
}

/// In the address of a verse, the language comes first, then the id, then
/// the anchor, which names the first verse of the id.
pub proof fn verse_address(r: ReferenceView, verse: Seq<char>)
    requires
        r.verse == Some(verse),
    ensures
        address_of(r) == chapter_address(r) + "?lang=eng"@ + "&id="@ + verse_id(verse) + seq![
            '#',
        ] + verse_anchor(verse),
{
}

} // verus!
