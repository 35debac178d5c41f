//! From a written citation to a reference.

use vstd::prelude::*;
use crate::grammar::{
    citation_split, lemma_locator_tokens, lemma_split_len, split_citation, split_len_from,
};
use crate::reference::{
    address_fits, address_of, reference_opt_view, Reference, ReferenceView,
};
use crate::registry::{
    exact_match, lemma_exact_match_listed, lemma_resolved_is_value, opt_view, prefix_match,
    resolve_book, BookRegistry,
};
use crate::text::{chars_of, lemma_lowered_idempotent, trim_bounds, trimmed};

verus! {

/// The reference that `input` stands for: the input is cut into its parts,
/// the book name is resolved against the aliases, and the book's series is
/// looked up. `None` where the input is no citation, the book is unknown, or
/// the book has no series; and `None` also where the address of the reference
/// would be longer than the 32-bit offsets of the `url` crate reach, which
/// takes a citation of some four thousand million characters.
pub open spec fn parse_reference(
    aliases: Seq<(Seq<char>, Seq<char>)>,
    series_table: Seq<(Seq<char>, Seq<char>)>,
    input: Seq<char>,
) -> Option<ReferenceView> {
    match citation_split(trimmed(input)) {
        None => None,
        Some(parts) => match resolve_book(aliases, parts.book) {
            None => None,
            Some(code) => match exact_match(series_table, code) {
                None => None,
                Some(series) => {
                    let found = ReferenceView {
                        book: code,
                        chapter: parts.chapter,
                        verse: parts.verse,
                        series,
                    };
                    if address_of(found).len() <= u32::MAX {
                        Some(found)
                    } else {
                        None
                    }
                },
            },
        },
    }
}

/// A text that names a book, or cites a passage.
pub trait BookAbbreviation {
    /// The text itself.
    spec fn text(&self) -> Seq<char>;

    /// The code of the book that the text names. A code that is found has a
    /// series in the registry.
    fn book(&self, registry: &BookRegistry) -> (code: Option<String>)
        ensures
            opt_view(code) == resolve_book(registry.aliases(), self.text()),
            code matches Some(c) ==> exact_match(registry.series_table(), c@) is Some,
    ;

    /// The code of the first alias that begins with the text, taken as it
    /// is. Which alias comes first depends on the order of the registry. A
    /// code that is found has a series in the registry.
    fn check_for_starting_word(&self, registry: &BookRegistry) -> (code: Option<String>)
        ensures
            opt_view(code) == prefix_match(registry.aliases(), self.text()),
            code matches Some(c) ==> exact_match(registry.series_table(), c@) is Some,
    ;

    /// The reference that the text cites.
    fn reference(&self, registry: &BookRegistry) -> (found: Option<Reference>)
        ensures
            reference_opt_view(found) == parse_reference(
                registry.aliases(),
                registry.series_table(),
                self.text(),
            ),
    ;
}

impl BookAbbreviation for str {
    open spec fn text(&self) -> Seq<char> {
        self@
    }

    fn book(&self, registry: &BookRegistry) -> (code: Option<String>) {
        let whole = chars_of(self);
        let (start, end) = trim_bounds(&whole);
        let name = self.substring_char(start, end).to_ascii_lowercase();
        proof {
            lemma_lowered_idempotent(trimmed(self@));
        }
        match registry.lookup_exact(name.as_str()) {
            Some(code) => Some(code),
            None => name.as_str().check_for_starting_word(registry),
        }
    }

    fn check_for_starting_word(&self, registry: &BookRegistry) -> (code: Option<String>) {
        registry.lookup_prefix(self)
    }

    fn reference(&self, registry: &BookRegistry) -> (found: Option<Reference>) {
        let parts = match split_citation(self) {
            Some(parts) => parts,
            None => {
                return None;
            },
        };
        let book_abbr = match parts.book.as_str().book(registry) {
            Some(code) => code,
            None => {
                return None;
            },
        };
        let series = match registry.series_for(book_abbr.as_str()) {
            Some(series) => series,
            None => {
                return None;
            },
        };
        proof {
            use_type_invariant(registry);
            registry.lemma_valid();
            let t = trimmed(self@);
            lemma_split_len(t, 1);
            let n = split_len_from(t, 1)->0;
            lemma_locator_tokens(t, n);
            lemma_resolved_is_value(registry.aliases(), parts.book@);
            lemma_exact_match_listed(registry.series_table(), book_abbr@, 0);
        }
        let chapter = match &parts.chapter {
            Some(c) => Some(c.as_str()),
            None => None,
        };
        let verse = match &parts.verse {
            Some(v) => Some(v.as_str()),
            None => None,
        };
        if !address_fits(book_abbr.as_str(), chapter, verse, series.as_str()) {
            return None;
        }
        Some(Reference::assemble(book_abbr, parts.chapter, parts.verse, series))
    }
}

} // verus!
