use expander::{Reference, Verse};

const SLUGS: &[&str] = &["a", "Z", "0", "-", "--", "a-", "-a", "1-ne", "w-of-m", "Js-H", "0x10", "xn--a",
    "CON", "e2e", "2e", "007", "dc-testament", "a-b-c-d-e-f-g-h-i-j-k-l-m-n-o-p-q-r-s-t-u-v-w-x-y-z"];

const TOKENS: &[&str] = &["0", "1", "007", "3-4", "0-0", "28-30", "30-28", "1234567890-0987654321"];

const HOSTS: &[&str] = &["a", "ab", "a.b", "www.example.org", "x.y.z.w", "localhost", "org"];

fn expected(book: &str, chapter: Option<&str>, verse: Option<&str>, series: &str) -> String {
    let mut text = format!("https://www.churchofjesuschrist.org/study/scriptures/{series}/{book}");
    if let Some(chapter) = chapter {
        text.push('/');
        text.push_str(chapter);
    }
    text.push_str("?lang=eng");
    if let Some(verse) = verse {
        let first = verse.split('-').next().unwrap();
        let id = match verse.split_once('-') {
            Some((start, end)) => format!("p{start}-p{end}"),
            None => format!("p{verse}"),
        };
        text.push_str(&format!("&id={id}#p{first}"));
    }
    text
}

fn built(book: &str, chapter: Option<&str>, verse: Option<&str>, series: &str) -> String {
    Reference::new(
        book.to_string(),
        chapter.map(|c| c.to_string()),
        verse.map(|v| Verse::new(v.to_string()).unwrap()),
        series.to_string(),
    )
    .unwrap()
    .return_uri()
}

#[test]
fn any_slugs_make_the_same_kind_of_address() {
    for book in SLUGS {
        for series in SLUGS {
            assert_eq!(built(book, None, None, series), expected(book, None, None, series));
            assert_eq!(
                built(book, Some("3"), Some("4-5"), series),
                expected(book, Some("3"), Some("4-5"), series)
            );
        }
    }
}

#[test]
fn different_references_have_different_addresses() {
    let mut seen = std::collections::HashSet::new();
    let mut count = 0;
    for book in SLUGS {
        for series in ["a", "a-", "-", "ot"] {
            for chapter in [None, Some("1"), Some("1-1"), Some("11")] {
                for verse in [None, Some("1"), Some("1-1"), Some("11"), Some("1-11")] {
                    if chapter.is_none() && verse.is_some() {
                        continue;
                    }
                    seen.insert(built(book, chapter, verse, series));
                    count += 1;
                }
            }
        }
    }
    assert_eq!(seen.len(), count);
}

#[test]
fn any_tokens_make_the_same_kind_of_address() {
    for chapter in TOKENS {
        assert_eq!(built("gen", Some(chapter), None, "ot"), expected("gen", Some(chapter), None, "ot"));
        for verse in TOKENS {
            assert_eq!(
                built("gen", Some(chapter), Some(verse), "ot"),
                expected("gen", Some(chapter), Some(verse), "ot")
            );
        }
    }
}

#[test]
fn plain_addresses_are_parsed_as_they_stand() {
    for host in HOSTS {
        for first in SLUGS {
            for second in ["", "/a", "/0", "/-", "/x-1/y/Z"] {
                let text = format!("https://{host}/{first}{second}");
                let parsed = url::Url::parse(&text).unwrap();
                assert_eq!(parsed.as_str(), text);
                assert_eq!(String::from(parsed), text);
            }
        }
    }
}

#[test]
fn slugs_are_pushed_as_they_stand() {
    for host in HOSTS {
        for segment in SLUGS.iter().chain(TOKENS) {
            let text = format!("https://{host}/study/x-1");
            let mut url = url::Url::parse(&text).unwrap();
            url.path_segments_mut().unwrap().push(segment);
            assert_eq!(url.as_str(), format!("{text}/{segment}"));
        }
    }
}

#[test]
fn slug_pairs_are_appended_as_they_stand() {
    for name in SLUGS {
        for value in SLUGS {
            let text = "https://a.b/c/d".to_string();
            let mut url = url::Url::parse(&text).unwrap();
            url.query_pairs_mut().append_pair(name, value);
            let once = format!("{text}?{name}={value}");
            assert_eq!(url.as_str(), once);
            url.query_pairs_mut().append_pair(value, name);
            let twice = format!("{once}&{value}={name}");
            assert_eq!(url.as_str(), twice);
            url.query_pairs_mut().append_pair("id", "p1-p2");
            assert_eq!(url.as_str(), format!("{twice}&id=p1-p2"));
        }
    }
}

#[test]
fn slug_anchors_are_set_as_they_stand() {
    for anchor in SLUGS {
        for query in ["", "?lang=eng", "?lang=eng&id=p4", "?a=b&c=d&e=f"] {
            let text = format!("https://www.example.org/x/y{query}");
            let mut url = url::Url::parse(&text).unwrap();
            url.set_fragment(Some(anchor));
            assert_eq!(url.as_str(), format!("{text}#{anchor}"));
        }
    }
}
