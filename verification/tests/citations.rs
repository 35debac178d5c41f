use expander::reference::address_fits;
use expander::{BookAbbreviation, BookRegistry, Reference, ToUriString, Verse};

fn leak_map(entries: &[(&'static str, &'static str)]) -> &'static phf::Map<&'static str, &'static str> {
    if entries.is_empty() {
        return Box::leak(Box::new(phf::Map::new()));
    }
    let keys: Vec<&'static str> = entries.iter().map(|entry| entry.0).collect();
    let state = phf_generator::generate_hash(&keys);
    let ordered: Vec<(&'static str, &'static str)> =
        state.map.iter().map(|&index| entries[index]).collect();
    Box::leak(Box::new(phf::Map {
        key: state.key,
        disps: Box::leak(state.disps.into_boxed_slice()),
        entries: Box::leak(ordered.into_boxed_slice()),
    }))
}

const BOOKS: &[(&str, &str)] = &[
    ("1 nephi", "1-ne"),
    ("1 ne", "1-ne"),
    ("1-ne", "1-ne"),
    ("3 nephi", "3-ne"),
    ("3-ne", "3-ne"),
    ("words of mormon", "w-of-m"),
    ("wom", "w-of-m"),
    ("w-of-m", "w-of-m"),
    ("matthew", "matt"),
    ("mt", "matt"),
    ("genesis", "gen"),
    ("gen", "gen"),
    ("habakkuk", "hab"),
];

const SERIES: &[(&str, &str)] = &[
    ("1-ne", "bofm"),
    ("3-ne", "bofm"),
    ("w-of-m", "bofm"),
    ("matt", "nt"),
    ("gen", "ot"),
    ("hab", "ot"),
];

fn registry() -> BookRegistry {
    BookRegistry::new(leak_map(BOOKS), leak_map(SERIES)).unwrap()
}

fn reference_of(book: &str, chapter: Option<&str>, verse: Option<&str>, series: &str) -> Reference {
    Reference::new(
        book.to_string(),
        chapter.map(|c| c.to_string()),
        verse.map(|v| Verse::new(v.to_string()).unwrap()),
        series.to_string(),
    )
    .unwrap()
}

#[test]
fn test_books_should_expand_to_abbreviation() {
    let reg = registry();
    assert_eq!("1 Nephi".book(&reg), Some("1-ne".to_string()));
    assert_eq!("1-ne".book(&reg), Some("1-ne".to_string()));
    assert_eq!("3 Nephi".book(&reg), Some("3-ne".to_string()));
    assert_eq!("Matt".book(&reg), Some("matt".to_string()));
    assert_eq!("Matthew".book(&reg), Some("matt".to_string()));
    assert_eq!("Unknown".book(&reg), None);
    assert_eq!("wom".book(&reg), Some("w-of-m".to_string()));
    assert_eq!("Words of Mormon".book(&reg), Some("w-of-m".to_string()));
}

#[test]
fn test_reference_parsing() {
    let reg = registry();
    assert_eq!(
        "1 Nephi 3:4".reference(&reg),
        Some(reference_of("1-ne", Some("3"), Some("4"), "bofm"))
    );
    assert_eq!(
        "1 Nephi 3".reference(&reg),
        Some(reference_of("1-ne", Some("3"), None, "bofm"))
    );
    assert_eq!(
        "Matthew 11:28-30".reference(&reg),
        Some(reference_of("matt", Some("11"), Some("28-30"), "nt"))
    );
    assert_eq!(
        "Words of Mormon 1:9".reference(&reg),
        Some(reference_of("w-of-m", Some("1"), Some("9"), "bofm"))
    );
    assert_eq!("Unknown 1:1".reference(&reg), None);
}

#[test]
fn test_url_generation() {
    let reg = registry();
    println!("1 Nephi 3:4.ref_url(): ");
    let reference = "1 Nephi 3:4".reference(&reg);
    let answer = "1 Nephi 3:4".reference(&reg);
    println!("answer: {:?}", answer);
    println!("{:?}", reference.unwrap());
    assert_eq!(
        "1 Nephi 3:4".reference(&reg),
        Some(reference_of("1-ne", Some("3"), Some("4"), "bofm"))
    );
    assert_eq!(
        "1 Nephi 3:4".reference(&reg).unwrap().return_uri(),
        "https://www.churchofjesuschrist.org/study/scriptures/bofm/1-ne/3?lang=eng&id=p4#p4"
            .to_string()
    );
    assert_eq!(
        "Matthew 11:28-30".reference(&reg).unwrap().return_uri(),
        "https://www.churchofjesuschrist.org/study/scriptures/nt/matt/11?lang=eng&id=p28-p30#p28"
            .to_string()
    );

    let foo = "wom".reference(&reg);
    let foo2 = "w-of-m".reference(&reg);
    println!("{:?}", foo.unwrap());
    println!("{:?}", foo2.unwrap());

    assert_eq!(
        "wom".reference(&reg).unwrap().return_uri(),
        "https://www.churchofjesuschrist.org/study/scriptures/bofm/w-of-m?lang=eng".to_string()
    );

    assert_eq!(
        "1 Nephi".reference(&reg).unwrap().return_uri(),
        "https://www.churchofjesuschrist.org/study/scriptures/bofm/1-ne?lang=eng".to_string()
    );
    assert_eq!("Unknown".reference(&reg), None);
}

#[test]
fn every_alias_resolves_to_its_code() {
    let reg = registry();
    for (alias, code) in BOOKS {
        assert_eq!(alias.book(&reg), Some(code.to_string()), "alias {alias}");
        assert_eq!(reg.lookup_exact(alias), Some(code.to_string()));
    }
}

#[test]
fn listed_codes_resolve_to_themselves() {
    let reg = registry();
    for code in ["1-ne", "3-ne", "w-of-m", "gen"] {
        assert_eq!(code.book(&reg), Some(code.to_string()));
        let once = code.book(&reg).unwrap();
        assert_eq!(once.as_str().book(&reg), Some(once.clone()));
    }
}

#[test]
fn names_are_trimmed_and_lower_cased() {
    let reg = registry();
    assert_eq!("  MATTHEW\t".book(&reg), Some("matt".to_string()));
    assert_eq!("WoM".book(&reg), Some("w-of-m".to_string()));
    assert_eq!("\u{a0}1 NEPHI\u{2003}".book(&reg), Some("1-ne".to_string()));
    assert_eq!(reg.lookup_exact("Genesis"), Some("gen".to_string()));
    assert_eq!(reg.lookup_exact(" genesis"), None);
}

#[test]
fn prefix_fallback_takes_the_first_alias_in_map_order() {
    let reg = registry();
    assert_eq!(reg.lookup_exact("matt"), None);
    assert_eq!("matt".check_for_starting_word(&reg), Some("matt".to_string()));
    assert_eq!("hab".book(&reg), Some("hab".to_string()));
    assert_eq!("xyz".check_for_starting_word(&reg), None);
    assert_eq!("Matt".check_for_starting_word(&reg), None);

    let books = leak_map(BOOKS);
    for probe in ["", "1", "w", "m", "ge", "3 n"] {
        let expected = books
            .entries()
            .find(|(alias, _)| alias.starts_with(probe))
            .map(|(_, code)| code.to_string());
        assert!(expected.is_some());
        assert_eq!(probe.check_for_starting_word(&reg), expected);
        assert_eq!(reg.lookup_prefix(probe), expected);
    }
}

#[test]
fn unknown_names_resolve_to_nothing() {
    let reg = registry();
    for name in ["Unknown", "nephi", "2 nephi", "matthews", "z"] {
        assert_eq!(name.book(&reg), None, "name {name}");
    }
}

#[test]
fn series_come_from_the_series_table() {
    let reg = registry();
    assert_eq!(reg.series_for("matt"), Some("nt".to_string()));
    assert_eq!(reg.series_for("1-ne"), Some("bofm".to_string()));
    assert_eq!(reg.series_for("hab"), Some("ot".to_string()));
    assert_eq!(reg.series_for("2-ne"), None);
    assert_eq!(reg.series_for("Matt"), None);
}

#[test]
fn every_book_code_needs_a_series() {
    let series = leak_map(&SERIES[..5]);
    assert!(BookRegistry::new(leak_map(BOOKS), series).is_none());
    assert!(BookRegistry::new(leak_map(&BOOKS[..12]), series).is_some());
    assert!(BookRegistry::new(leak_map(&[("matthew", "matt")]), leak_map(&[])).is_none());
    assert!(BookRegistry::new(leak_map(&[("matthew", "Matt")]), leak_map(SERIES)).is_none());
    assert!(BookRegistry::new(leak_map(&[]), leak_map(SERIES)).is_some());
}

#[test]
fn every_resolved_book_has_a_series() {
    let reg = registry();
    for name in ["1 Nephi", "Matt", "wom", "hab", "Habakkuk", "g", "", "3-ne"] {
        let code = name.book(&reg).unwrap();
        assert!(reg.series_for(&code).is_some());
        let text = format!("{name} 2:4");
        let found = text.as_str().reference(&reg);
        if !name.is_empty() {
            assert_eq!(found.unwrap().book(), code);
        }
    }
    for name in ["1", "w", "ma", "ge"] {
        let code = name.check_for_starting_word(&reg).unwrap();
        assert!(reg.series_for(&code).is_some());
    }
}

#[test]
fn book_only_and_chapter_only_citations() {
    let reg = registry();
    assert_eq!("1 Nephi".reference(&reg), Some(reference_of("1-ne", None, None, "bofm")));
    assert_eq!("Genesis 12".reference(&reg), Some(reference_of("gen", Some("12"), None, "ot")));
    assert_eq!(
        "  genesis   1-2  ".reference(&reg),
        Some(reference_of("gen", Some("1-2"), None, "ot"))
    );
    assert_eq!(
        "Genesis1:1".reference(&reg),
        Some(reference_of("gen", Some("1"), Some("1"), "ot"))
    );
}

#[test]
fn malformed_citations_are_no_reference() {
    let reg = registry();
    for text in ["", "   ", "3:4", " 3:4", ":4", "Genesis 1:", "Genesis 1 :2", "Genesis 1: 2",
        "Genesis 1:2:3", "Genesis 1-", "Genesis 1:2-", "Genesis, 1", "Gen. 1", "Genesis 1 2 x:"] {
        assert_eq!(text.reference(&reg), None, "text {text:?}");
    }
}

#[test]
fn getters_hand_out_the_parts() {
    let reg = registry();
    let found = "Matthew 11:28-30".reference(&reg).unwrap();
    assert_eq!(found.book(), "matt");
    assert_eq!(found.series(), "nt");
    assert_eq!(found.chapter(), Some("11"));
    assert_eq!(found.verse().map(|v| v.as_str()), Some("28-30"));
    let bare = "wom".reference(&reg).unwrap();
    assert_eq!(bare.chapter(), None);
    assert!(bare.verse().is_none());
}

#[test]
fn verses_are_written_with_id_and_anchor() {
    assert_eq!(Verse::new("4".to_string()).unwrap().to_uri_string(), "p4#p4");
    assert_eq!(Verse::new("28-30".to_string()).unwrap().to_uri_string(), "p28-p30#p28");
    assert_eq!(Verse::new("007-10".to_string()).unwrap().to_uri_string(), "p007-p10#p007");
    assert_eq!(Verse::new("30-28".to_string()).unwrap().to_uri_string(), "p30-p28#p30");
}

#[test]
fn only_number_tokens_are_verses() {
    for text in ["", "-", "4-", "-4", "4--5", "4-5-6", "4a", " 4", "4:5", "\u{663}"] {
        assert!(Verse::new(text.to_string()).is_none(), "text {text:?}");
    }
    for text in ["0", "4", "28-30", "1234567890-1"] {
        assert_eq!(Verse::new(text.to_string()).unwrap().as_str(), text);
    }
}

#[test]
fn only_valid_parts_make_a_reference() {
    let verse = |text: &str| Verse::new(text.to_string());
    let make = |book: &str, chapter: Option<&str>, verse: Option<Verse>, series: &str| {
        Reference::new(book.to_string(), chapter.map(|c| c.to_string()), verse, series.to_string())
    };
    assert!(make("matt", Some("11"), verse("28"), "nt").is_some());
    assert!(make("matt", None, None, "nt").is_some());
    assert!(make("matt", None, verse("28"), "nt").is_none());
    assert!(make("", Some("11"), None, "nt").is_none());
    assert!(make("matt", Some("11"), None, "").is_none());
    assert!(make("d&c", Some("11"), None, "nt").is_none());
    assert!(make("matt", Some("11"), None, "new testament").is_none());
    assert!(make("matt", Some("x"), None, "nt").is_none());
    assert!(make("matt", Some("1:2"), None, "nt").is_none());
}

#[test]
fn addresses_follow_the_site_scheme() {
    let address = |book: &str, chapter: Option<&str>, verse: Option<&str>, series: &str| {
        reference_of(book, chapter, verse, series).return_uri()
    };
    assert_eq!(
        address("gen", None, None, "ot"),
        "https://www.churchofjesuschrist.org/study/scriptures/ot/gen?lang=eng"
    );
    assert_eq!(
        address("gen", Some("1-2"), None, "ot"),
        "https://www.churchofjesuschrist.org/study/scriptures/ot/gen/1-2?lang=eng"
    );
    assert_eq!(
        address("Js-H", Some("1"), Some("15-20"), "pgp"),
        "https://www.churchofjesuschrist.org/study/scriptures/pgp/Js-H/1?lang=eng&id=p15-p20#p15"
    );
    assert_eq!(
        address("dc", Some("76"), Some("22"), "dc-testament"),
        "https://www.churchofjesuschrist.org/study/scriptures/dc-testament/dc/76?lang=eng&id=p22#p22"
    );
}

#[test]
fn addresses_of_ordinary_length_fit() {
    let reg = registry();
    for text in ["1 Nephi", "1 Nephi 3", "Matthew 11:28-30", "Genesis 1-2:3-4"] {
        let found = text.reference(&reg).unwrap();
        assert!(found.return_uri().len() <= u32::MAX as usize);
    }
    assert!(address_fits("gen", None, None, "ot"));
    assert!(address_fits("gen", Some("1-2"), Some("3-4"), "ot"));
    let long = reference_of("gen", Some(&"7".repeat(5000)), Some(&"1".repeat(3000)), "ot");
    assert_eq!(long.return_uri().len(), 52 + 1 + 2 + 1 + 3 + 1 + 5000 + 9 + 4 + 3001 + 1 + 3001);
}

#[test]
fn addresses_parse_back_to_their_parts() {
    let text = reference_of("matt", Some("11"), Some("28-30"), "nt").return_uri();
    let parsed = url::Url::parse(&text).unwrap();
    assert_eq!(parsed.as_str(), text);
    assert_eq!(parsed.host_str(), Some("www.churchofjesuschrist.org"));
    assert_eq!(parsed.path(), "/study/scriptures/nt/matt/11");
    assert_eq!(parsed.query(), Some("lang=eng&id=p28-p30"));
    assert_eq!(parsed.fragment(), Some("p28"));
    let pairs: Vec<(String, String)> = parsed.query_pairs().into_owned().collect();
    assert_eq!(pairs[0], ("lang".to_string(), "eng".to_string()));
    assert_eq!(pairs[1], ("id".to_string(), "p28-p30".to_string()));
}

#[test]
fn maps_are_checked_before_use() {
    let series = leak_map(SERIES);
    assert!(BookRegistry::new(leak_map(&[]), leak_map(&[])).is_some());
    assert!(BookRegistry::new(leak_map(&[("Matthew", "matt")]), series).is_none());
    assert!(BookRegistry::new(leak_map(&[(" matthew", "matt")]), series).is_none());
    assert!(BookRegistry::new(leak_map(&[("matthew", "")]), series).is_none());
    assert!(BookRegistry::new(leak_map(&[("matthew", "st matt")]), series).is_none());
    assert!(BookRegistry::new(leak_map(BOOKS), leak_map(&[("matt", "new/testament")])).is_none());
    assert!(BookRegistry::new(leak_map(&[("", "matt")]), series).is_some());
}

#[test]
fn a_map_that_loses_its_entries_is_refused() {
    let good = leak_map(BOOKS);
    let mut shuffled: Vec<(&'static str, &'static str)> = good.entries.to_vec();
    shuffled.rotate_left(1);
    let bad: &'static phf::Map<&'static str, &'static str> = Box::leak(Box::new(phf::Map {
        key: good.key,
        disps: good.disps,
        entries: Box::leak(shuffled.into_boxed_slice()),
    }));
    assert!(bad.entries().any(|(alias, _)| bad.get(*alias).is_none()));
    assert!(BookRegistry::new(bad, leak_map(SERIES)).is_none());
    assert!(BookRegistry::new(leak_map(BOOKS), bad).is_none());
}

#[test]
fn an_empty_registry_knows_no_book() {
    let reg = BookRegistry::new(leak_map(&[]), leak_map(&[])).unwrap();
    assert_eq!("Matthew".book(&reg), None);
    assert_eq!("".check_for_starting_word(&reg), None);
    assert_eq!(reg.series_for("matt"), None);
    assert_eq!("Matthew 1:1".reference(&reg), None);
}
