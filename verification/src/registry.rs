//! The book registry: which spellings name which book, and which series a
//! book belongs to.
//!
//! Both tables are perfect-hash maps built elsewhere, once, and never changed.
//! A registry is made from two such maps after checking them entry by entry,
//! so that every lookup afterwards can be described over the plain list of
//! entries that the maps hold.

use vstd::prelude::*;
use crate::text::{
    begins_with, chars_of, is_normal_form, is_normalized, is_slug, is_slug_text, lowered,
    normalized, same_text,
};

verus! {

/// `phf::Map`, a perfect-hash map made once and never changed. Nothing of
/// its inside is visible here; what it holds is named by `map_entries`.
#[verifier::external_type_specification]
#[verifier::external_body]
#[verifier::reject_recursive_types(K)]
#[verifier::reject_recursive_types(V)]
pub struct ExPhfMap<K: 'static, V: 'static>(phf::Map<K, V>);

/// The entries of a map, in the order in which the map hands them out.
pub uninterp spec fn map_entries(map: phf::Map<&'static str, &'static str>) -> Seq<
    (Seq<char>, Seq<char>),
>;

/// What the map answers when asked for `key`.
pub uninterp spec fn map_lookup(
    map: phf::Map<&'static str, &'static str>,
    key: Seq<char>,
) -> Option<Seq<char>>;

/// The number of displacement pairs that the map hashes a key with.
pub uninterp spec fn map_slots(map: phf::Map<&'static str, &'static str>) -> nat;

/// The texts of a list of string pairs.
pub open spec fn pairs_view(v: Seq<(&'static str, &'static str)>) -> Seq<(Seq<char>, Seq<char>)> {
    Seq::new(v.len(), |i: int| (v[i].0@, v[i].1@))
}

/// The text of an optional string slice.
pub open spec fn opt_str_view(o: Option<&'static str>) -> Option<Seq<char>> {
    match o {
        Some(s) => Some(s@),
        None => None,
    }
}

/// The text of an optional string.
pub open spec fn opt_view(o: Option<String>) -> Option<Seq<char>> {
    match o {
        Some(s) => Some(s@),
        None => None,
    }
}

/// `table` holds the entry `key` → `value`.
pub open spec fn lists(
    table: Seq<(Seq<char>, Seq<char>)>,
    key: Seq<char>,
    value: Seq<char>,
) -> bool {
    exists|i: int| 0 <= i < table.len() && #[trigger] table[i] == (key, value)
}

/// `phf::Map::entries`: the map's entries, copied out in the map's own order.
/// The order is fixed for a given map; nothing more is known of it.
#[verifier::external_body]
fn entries_of(map: &phf::Map<&'static str, &'static str>) -> (out: Vec<
    (&'static str, &'static str),
>)
    ensures
        pairs_view(out@) == map_entries(*map),
{
    map.entries().map(|(k, v)| (*k, *v)).collect()
}

/// The length of `phf::Map::disps`, the table of displacements that the map
/// was made with. The field is public, though kept out of the documentation,
/// and no method of the map gives its length.
#[verifier::external_body]
fn slots_of(map: &phf::Map<&'static str, &'static str>) -> (n: usize)
    ensures
        n == map_slots(*map),
{
    map.disps.len()
}

/// `phf::Map::get`: the answer depends on the map and the key alone, and a
/// value that is handed out belongs to an entry stored under exactly that key.
/// That a stored key is found is not claimed here. The map must hold between
/// one and `u32::MAX` entries and at most `u32::MAX` displacement pairs: the
/// place of a key is computed modulo both numbers, each taken as a `u32`.
#[verifier::external_body]
fn lookup_in(map: &phf::Map<&'static str, &'static str>, key: &str) -> (found: Option<&'static str>)
    requires
        0 < map_entries(*map).len() <= u32::MAX,
        map_slots(*map) <= u32::MAX,
    ensures
        opt_str_view(found) == map_lookup(*map, key@),
        found matches Some(v) ==> lists(map_entries(*map), key@, v@),
{
    map.get(key).copied()
}

/// Every entry of the map is found again under its own key.
pub open spec fn coherent(map: phf::Map<&'static str, &'static str>) -> bool {
    forall|i: int|
        0 <= i < map_entries(map).len() ==> map_lookup(map, (#[trigger] map_entries(map)[i]).0)
            == Some(map_entries(map)[i].1)
}

/// Every key is in normal form.
pub open spec fn keys_normalized(table: Seq<(Seq<char>, Seq<char>)>) -> bool {
    forall|i: int| 0 <= i < table.len() ==> is_normalized((#[trigger] table[i]).0)
}

/// Every value is a slug.
pub open spec fn values_are_slugs(table: Seq<(Seq<char>, Seq<char>)>) -> bool {
    forall|i: int| 0 <= i < table.len() ==> is_slug((#[trigger] table[i]).1)
}

/// No key stands for two different values.
pub open spec fn single_valued(table: Seq<(Seq<char>, Seq<char>)>) -> bool {
    forall|i: int, j: int|
        0 <= i < table.len() && 0 <= j < table.len() && (#[trigger] table[i]).0 == (
        #[trigger] table[j]).0 ==> table[i].1 == table[j].1
}

/// Every book code of the alias table has its series in the series table.
pub open spec fn codes_have_series(
    aliases: Seq<(Seq<char>, Seq<char>)>,
    series_table: Seq<(Seq<char>, Seq<char>)>,
) -> bool {
    forall|i: int|
        0 <= i < aliases.len() ==> exact_match(series_table, (#[trigger] aliases[i]).1) is Some
}

/// What an alias table must satisfy: keys in normal form, slugs as book
/// codes, one code per key.
pub open spec fn valid_aliases(table: Seq<(Seq<char>, Seq<char>)>) -> bool {
    keys_normalized(table) && values_are_slugs(table) && single_valued(table)
}

/// What a series table must satisfy: slugs as series codes, one series per
/// book code.
pub open spec fn valid_series(table: Seq<(Seq<char>, Seq<char>)>) -> bool {
    values_are_slugs(table) && single_valued(table)
}

/// A map of book names that a registry accepts.
pub open spec fn accepts_books(map: phf::Map<&'static str, &'static str>) -> bool {
    &&& map_entries(map).len() <= u32::MAX
    &&& map_slots(map) <= u32::MAX
    &&& coherent(map)
    &&& keys_normalized(map_entries(map))
    &&& values_are_slugs(map_entries(map))
}

/// A map of series that a registry accepts.
pub open spec fn accepts_series(map: phf::Map<&'static str, &'static str>) -> bool {
    &&& map_entries(map).len() <= u32::MAX
    &&& map_slots(map) <= u32::MAX
    &&& coherent(map)
    &&& values_are_slugs(map_entries(map))
}

/// Value of the first entry at or after `from` whose key is `name`.
pub open spec fn exact_match_from(
    table: Seq<(Seq<char>, Seq<char>)>,
    name: Seq<char>,
    from: int,
) -> Option<Seq<char>>
    decreases table.len() - from,
{
    if from < 0 || from >= table.len() {
        None
    } else if table[from].0 == name {
        Some(table[from].1)
    } else {
        exact_match_from(table, name, from + 1)
    }
}

/// Value stored under exactly `name`, if any.
pub open spec fn exact_match(table: Seq<(Seq<char>, Seq<char>)>, name: Seq<char>) -> Option<
    Seq<char>,
> {
    exact_match_from(table, name, 0)
}

/// Value of the first entry at or after `from` whose key begins with `name`.
pub open spec fn prefix_match_from(
    table: Seq<(Seq<char>, Seq<char>)>,
    name: Seq<char>,
    from: int,
) -> Option<Seq<char>>
    decreases table.len() - from,
{
    if from < 0 || from >= table.len() {
        None
    } else if name.is_prefix_of(table[from].0) {
        Some(table[from].1)
    } else {
        prefix_match_from(table, name, from + 1)
    }
}

/// Value of the first entry, in table order, whose key begins with `name`.
pub open spec fn prefix_match(table: Seq<(Seq<char>, Seq<char>)>, name: Seq<char>) -> Option<
    Seq<char>,
> {
    prefix_match_from(table, name, 0)
}

/// The book code that `raw` resolves to: the name is brought into normal
/// form and looked up as it is; where no alias equals it, the first alias that
/// begins with it decides.
pub open spec fn resolve_book(table: Seq<(Seq<char>, Seq<char>)>, raw: Seq<char>) -> Option<
    Seq<char>,
> {
    match exact_match(table, normalized(raw)) {
        Some(code) => Some(code),
        None => prefix_match(table, normalized(raw)),
    }
}

/// An entry at `i` under `name` decides an exact match from any `from <= i`.
pub proof fn lemma_exact_found(
    table: Seq<(Seq<char>, Seq<char>)>,
    name: Seq<char>,
    from: int,
    i: int,
)
    requires
        single_valued(table),
        0 <= from <= i < table.len(),
        table[i].0 == name,
    ensures
        exact_match_from(table, name, from) == Some(table[i].1),
    decreases i - from,
{
    if table[from].0 != name {
        lemma_exact_found(table, name, from + 1, i);
    }
}

/// Without an entry under `name` there is no exact match.
pub proof fn lemma_exact_absent(table: Seq<(Seq<char>, Seq<char>)>, name: Seq<char>, from: int)
    requires
        0 <= from,
        forall|i: int| from <= i < table.len() ==> (#[trigger] table[i]).0 != name,
    ensures
        exact_match_from(table, name, from) is None,
    decreases table.len() - from,
{
    if from < table.len() {
        lemma_exact_absent(table, name, from + 1);
    }
}

/// An exact match comes from an entry under that very name.
pub proof fn lemma_exact_match_listed(
    table: Seq<(Seq<char>, Seq<char>)>,
    name: Seq<char>,
    from: int,
)
    requires
        0 <= from,
        exact_match_from(table, name, from) is Some,
    ensures
        lists(table, name, exact_match_from(table, name, from)->0),
    decreases table.len() - from,
{
    if table[from].0 != name {
        lemma_exact_match_listed(table, name, from + 1);
    }
}

/// A prefix match comes from the first entry whose key begins with the name.
pub proof fn lemma_prefix_match_first(
    table: Seq<(Seq<char>, Seq<char>)>,
    name: Seq<char>,
    from: int,
)
    requires
        0 <= from,
    ensures
        prefix_match_from(table, name, from) matches Some(code) ==> exists|i: int|
            from <= i < table.len() && (#[trigger] table[i]).1 == code && name.is_prefix_of(
                table[i].0,
            ) && forall|j: int| from <= j < i ==> !name.is_prefix_of((#[trigger] table[j]).0),
        prefix_match_from(table, name, from) is None ==> forall|i: int|
            from <= i < table.len() ==> !name.is_prefix_of((#[trigger] table[i]).0),
    decreases table.len() - from,
{
    if from < table.len() && !name.is_prefix_of(table[from].0) {
        lemma_prefix_match_first(table, name, from + 1);
    }
}

/// Whatever a book name resolves to is a value of the table.
pub proof fn lemma_resolved_is_value(table: Seq<(Seq<char>, Seq<char>)>, raw: Seq<char>)
    requires
        resolve_book(table, raw) is Some,
    ensures
        exists|i: int|
            0 <= i < table.len() && (#[trigger] table[i]).1 == resolve_book(table, raw)->0,
{
    let name = normalized(raw);
    if exact_match(table, name) is Some {
        lemma_exact_match_listed(table, name, 0);
    } else {
        lemma_prefix_match_first(table, name, 0);
    }
}

/// Where every book code has its series, so has whatever a name is matched
/// to, exactly or as the beginning of an alias.
pub proof fn lemma_match_has_series(
    aliases: Seq<(Seq<char>, Seq<char>)>,
    series_table: Seq<(Seq<char>, Seq<char>)>,
    name: Seq<char>,
)
    requires
        codes_have_series(aliases, series_table),
    ensures
        exact_match(aliases, name) matches Some(code) ==> exact_match(series_table, code) is Some,
        prefix_match(aliases, name) matches Some(code) ==> exact_match(series_table, code) is Some,
{
    if exact_match(aliases, name) is Some {
        lemma_exact_match_listed(aliases, name, 0);
    }
    lemma_prefix_match_first(aliases, name, 0);
}

/// A coherent map never stores two values under one key.
pub proof fn lemma_coherent_single_valued(map: phf::Map<&'static str, &'static str>)
    requires
        coherent(map),
    ensures
        single_valued(map_entries(map)),
{
}

/// The two maps behind a registry, checked.
pub struct BookRegistry {
    books: &'static phf::Map<&'static str, &'static str>,
    series: &'static phf::Map<&'static str, &'static str>,
    aliases: Vec<(&'static str, &'static str)>,
    series_count: usize,
}

/// Whether every entry of `map` is found again under its own key.
fn check_coherent(
    map: &phf::Map<&'static str, &'static str>,
    entries: &Vec<(&'static str, &'static str)>,
) -> (ok: bool)
    requires
        pairs_view(entries@) == map_entries(*map),
        entries.len() <= u32::MAX,
        map_slots(*map) <= u32::MAX,
    ensures
        ok == coherent(*map),
{
    let n: usize = entries.len();
    let mut i: usize = 0;
    while i < n
        invariant
            i <= n,
            n == entries.len(),
            0 < n ==> 0 < map_entries(*map).len() <= u32::MAX,
            map_slots(*map) <= u32::MAX,
            pairs_view(entries@) == map_entries(*map),
            forall|j: int|
                0 <= j < i ==> map_lookup(*map, (#[trigger] map_entries(*map)[j]).0) == Some(
                    map_entries(*map)[j].1,
                ),
        decreases n - i,
    {
        let (key, value) = entries[i];
        let found = lookup_in(map, key);
        let same = match found {
            Some(v) => same_text(v, value),
            None => false,
        };
        if !same {
            assert(map_lookup(*map, map_entries(*map)[i as int].0) != Some(
                map_entries(*map)[i as int].1,
            ));
            return false;
        }
        i = i + 1;
    }
    true
}

/// Whether every key of `entries` is in normal form.
fn check_keys(entries: &Vec<(&'static str, &'static str)>) -> (ok: bool)
    ensures
        ok == keys_normalized(pairs_view(entries@)),
{
    let n: usize = entries.len();
    let mut i: usize = 0;
    while i < n
        invariant
            i <= n,
            n == entries.len(),
            forall|j: int| 0 <= j < i ==> is_normalized((#[trigger] pairs_view(entries@)[j]).0),
        decreases n - i,
    {
        if !is_normal_form(entries[i].0) {
            assert(!is_normalized(pairs_view(entries@)[i as int].0));
            return false;
        }
        i = i + 1;
    }
    true
}

/// Whether every value of `entries` is a slug.
fn check_values(entries: &Vec<(&'static str, &'static str)>) -> (ok: bool)
    ensures
        ok == values_are_slugs(pairs_view(entries@)),
{
    let n: usize = entries.len();
    let mut i: usize = 0;
    while i < n
        invariant
            i <= n,
            n == entries.len(),
            forall|j: int| 0 <= j < i ==> is_slug((#[trigger] pairs_view(entries@)[j]).1),
        decreases n - i,
    {
        if !is_slug_text(entries[i].1) {
            assert(!is_slug(pairs_view(entries@)[i as int].1));
            return false;
        }
        i = i + 1;
    }
    true
}

/// Whether every book code of `aliases` has its series in `series`.
fn check_series(
    series: &phf::Map<&'static str, &'static str>,
    series_count: usize,
    aliases: &Vec<(&'static str, &'static str)>,
) -> (ok: bool)
    requires
        coherent(*series),
        series_count == map_entries(*series).len(),
        series_count <= u32::MAX,
        map_slots(*series) <= u32::MAX,
    ensures
        ok == codes_have_series(pairs_view(aliases@), map_entries(*series)),
{
    let n: usize = aliases.len();
    let mut i: usize = 0;
    while i < n
        invariant
            i <= n,
            n == aliases.len(),
            coherent(*series),
            series_count == map_entries(*series).len(),
            series_count <= u32::MAX,
            map_slots(*series) <= u32::MAX,
            forall|j: int|
                0 <= j < i ==> exact_match(
                    map_entries(*series),
                    (#[trigger] pairs_view(aliases@)[j]).1,
                ) is Some,
        decreases n - i,
    {
        let code = aliases[i].1;
        let found = if series_count == 0 {
            None
        } else {
            lookup_in(series, code)
        };
        proof {
            if series_count == 0 {
                lemma_exact_absent(map_entries(*series), code@, 0);
            } else {
                lemma_lookup_is_exact_match(*series, code@);
            }
        }
        if found.is_none() {
            assert(exact_match(map_entries(*series), pairs_view(aliases@)[i as int].1) is None);
            return false;
        }
        i = i + 1;
    }
    true
}

impl BookRegistry {
    /// The alias table: each known spelling with the code of its book, in the
    /// order of the map of book names.
    pub closed spec fn aliases(&self) -> Seq<(Seq<char>, Seq<char>)> {
        map_entries(*self.books)
    }

    /// The series table: each book code with the code of its series.
    pub closed spec fn series_table(&self) -> Seq<(Seq<char>, Seq<char>)> {
        map_entries(*self.series)
    }

    /// The registry's invariant: both maps were accepted, every book code has
    /// its series, and the copy of the aliases is theirs.
    #[verifier::type_invariant]
    pub closed spec fn wf(&self) -> bool {
        &&& accepts_books(*self.books)
        &&& accepts_series(*self.series)
        &&& codes_have_series(map_entries(*self.books), map_entries(*self.series))
        &&& pairs_view(self.aliases@) == map_entries(*self.books)
        &&& self.series_count == map_entries(*self.series).len()
    }

    /// What the invariant means for the two tables.
    pub proof fn lemma_valid(&self)
        requires
            self.wf(),
        ensures
            valid_aliases(self.aliases()),
            valid_series(self.series_table()),
            codes_have_series(self.aliases(), self.series_table()),
    {
        lemma_coherent_single_valued(*self.books);
        lemma_coherent_single_valued(*self.series);
    }

    /// Makes a registry of the two maps, or nothing where one of them is not
    /// acceptable or a book code is left without a series.
    pub fn new(
        books: &'static phf::Map<&'static str, &'static str>,
        series: &'static phf::Map<&'static str, &'static str>,
    ) -> (made: Option<BookRegistry>)
        ensures
            made is Some <==> accepts_books(*books) && accepts_series(*series)
                && codes_have_series(map_entries(*books), map_entries(*series)),
            made matches Some(registry) ==> registry.wf() && registry.aliases() == map_entries(
                *books,
            ) && registry.series_table() == map_entries(*series),
    {
        let aliases = entries_of(books);
        let series_entries = entries_of(series);
        if aliases.len() > 0xFFFF_FFFF || series_entries.len() > 0xFFFF_FFFF {
            return None;
        }
        if slots_of(books) > 0xFFFF_FFFF || slots_of(series) > 0xFFFF_FFFF {
            return None;
        }
        if !check_coherent(books, &aliases) || !check_keys(&aliases) || !check_values(&aliases) {
            return None;
        }
        if !check_coherent(series, &series_entries) || !check_values(&series_entries) {
            return None;
        }
        let series_count: usize = series_entries.len();
        if !check_series(series, series_count, &aliases) {
            return None;
        }
        Some(BookRegistry { books, series, aliases, series_count })
    }

    /// The code stored under exactly `name`, compared without regard to ASCII
    /// case. A code that is found has a series.
    pub fn lookup_exact(&self, name: &str) -> (code: Option<String>)
        ensures
            opt_view(code) == exact_match(self.aliases(), lowered(name@)),
            code matches Some(c) ==> exact_match(self.series_table(), c@) is Some,
    {
        proof {
            use_type_invariant(self);
            lemma_coherent_single_valued(*self.books);
            lemma_match_has_series(self.aliases(), self.series_table(), lowered(name@));
        }
        if self.aliases.len() == 0 {
            return None;
        }
        let key = name.to_ascii_lowercase();
        let found = lookup_in(self.books, key.as_str());
        proof {
            lemma_lookup_is_exact_match(*self.books, key@);
        }
        match found {
            Some(v) => Some(v.to_owned()),
            None => None,
        }
    }

    /// The code of the first alias, in table order, that begins with `name`.
    /// Which alias comes first is decided by the map of book names alone. A
    /// code that is found has a series.
    pub fn lookup_prefix(&self, name: &str) -> (code: Option<String>)
        ensures
            opt_view(code) == prefix_match(self.aliases(), name@),
            code matches Some(c) ==> exact_match(self.series_table(), c@) is Some,
    {
        proof {
            use_type_invariant(self);
            lemma_match_has_series(self.aliases(), self.series_table(), name@);
        }
        let wanted = chars_of(name);
        let n: usize = self.aliases.len();
        let mut i: usize = 0;
        while i < n
            invariant
                i <= n,
                n == self.aliases.len(),
                wanted@ == name@,
                pairs_view(self.aliases@) == self.aliases(),
                codes_have_series(self.aliases(), self.series_table()),
                prefix_match_from(self.aliases(), name@, i as int) == prefix_match(
                    self.aliases(),
                    name@,
                ),
            decreases n - i,
        {
            let (key, value) = self.aliases[i];
            if begins_with(key, &wanted) {
                return Some(value.to_owned());
            }
            i = i + 1;
        }
        None
    }

    /// The series that the book `code` belongs to.
    pub fn series_for(&self, code: &str) -> (series: Option<String>)
        ensures
            opt_view(series) == exact_match(self.series_table(), code@),
    {
        proof {
            use_type_invariant(self);
            lemma_coherent_single_valued(*self.series);
        }
        if self.series_count == 0 {
            return None;
        }
        let found = lookup_in(self.series, code);
        proof {
            lemma_lookup_is_exact_match(*self.series, code@);
        }
        match found {
            Some(v) => Some(v.to_owned()),
            None => None,
        }
    }
}

/// In a coherent map, what the map answers is the exact match in its entries.
pub proof fn lemma_lookup_is_exact_match(map: phf::Map<&'static str, &'static str>, key: Seq<char>)
    requires
        coherent(map),
        map_lookup(map, key) matches Some(v) ==> lists(map_entries(map), key, v),
    ensures
        map_lookup(map, key) == exact_match(map_entries(map), key),
{
    let table = map_entries(map);
    lemma_coherent_single_valued(map);
    match map_lookup(map, key) {
        Some(v) => {
            let i = choose|i: int| 0 <= i < table.len() && #[trigger] table[i] == (key, v);
            lemma_exact_found(table, key, 0, i);
        },
        None => {
            lemma_exact_absent(table, key, 0);
        },
    }
}

} // verus!
