//! Addresses of the plain kind that this library builds.
//!
//! An address is assembled by the `url` crate: it is parsed from a base text
//! and then given a further path segment, query pairs and a fragment. This
//! module says which texts are plain enough for every one of these steps to
//! leave the given characters as they are, and states each step for such
//! texts only.

use vstd::prelude::*;
use crate::text::{is_slug, is_slug_char};

verus! {

/// `url::Url`, an address as the `url` crate holds it. Nothing of its inside
/// is visible here; its text is named by `url_text`.
#[verifier::external_type_specification]
#[verifier::external_body]
pub struct ExUrl(url::Url);

/// The text of an address, as it is written out.
pub uninterp spec fn url_text(url: url::Url) -> Seq<char>;

/// The scheme and the two slashes that every address here begins with.
pub open spec fn scheme_text() -> Seq<char> {
    seq!['h', 't', 't', 'p', 's', ':', '/', '/']
}

/// A host name of lower-case ASCII letters, in non-empty labels joined by
/// dots.
pub open spec fn is_plain_host(h: Seq<char>) -> bool {
    &&& h.len() > 0
    &&& h[0] != '.'
    &&& h[h.len() - 1] != '.'
    &&& forall|i: int| 0 <= i < h.len() ==> 'a' <= #[trigger] h[i] <= 'z' || h[i] == '.'
    &&& forall|i: int| 0 <= i < h.len() - 1 ==> !(#[trigger] h[i] == '.' && h[i + 1] == '.')
}

/// A path of one or more slugs, each led by a slash.
pub open spec fn is_slug_path(p: Seq<char>) -> bool {
    &&& p.len() >= 2
    &&& p[0] == '/'
    &&& p[p.len() - 1] != '/'
    &&& forall|i: int| 0 <= i < p.len() ==> is_slug_char(#[trigger] p[i]) || p[i] == '/'
    &&& forall|i: int| 0 <= i < p.len() - 1 ==> !(#[trigger] p[i] == '/' && p[i + 1] == '/')
}

/// `t` is the scheme, then `host`, then `path`, both plain.
pub open spec fn is_address_of(t: Seq<char>, host: Seq<char>, path: Seq<char>) -> bool {
    t == scheme_text() + host + path && is_plain_host(host) && is_slug_path(path)
}

/// A plain address: `https://`, a plain host and a path of slugs, with neither
/// query nor fragment.
pub open spec fn is_plain_address(t: Seq<char>) -> bool {
    exists|host: Seq<char>, path: Seq<char>| #[trigger] is_address_of(t, host, path)
}

/// A character of a plain query, apart from the question mark that leads it.
pub open spec fn is_query_char(c: char) -> bool {
    is_slug_char(c) || c == '=' || c == '&'
}

/// A plain query: nothing, or a question mark and at least one plain
/// character.
pub open spec fn is_plain_query(q: Seq<char>) -> bool {
    q.len() == 0 || (q.len() >= 2 && q[0] == '?' && forall|i: int|
        1 <= i < q.len() ==> is_query_char(#[trigger] q[i]))
}

/// `t` is the plain address `address`, then the plain query `query`.
pub open spec fn is_target_of(t: Seq<char>, address: Seq<char>, query: Seq<char>) -> bool {
    t == address + query && is_plain_address(address) && is_plain_query(query)
}

/// A plain address that may have a plain query, but has no fragment.
pub open spec fn is_plain_target(t: Seq<char>) -> bool {
    exists|address: Seq<char>, query: Seq<char>| #[trigger] is_target_of(t, address, query)
}

/// The text holds a question mark, which in a plain target leads the query.
pub open spec fn has_query(t: Seq<char>) -> bool {
    exists|i: int| 0 <= i < t.len() && #[trigger] t[i] == '?'
}

/// What a further pair is joined to a target with.
pub open spec fn pair_joiner(t: Seq<char>) -> char {
    if has_query(t) {
        '&'
    } else {
        '?'
    }
}

/// `Url::parse`: of a plain address it makes an address with the very same
/// text. Nothing is claimed of any other text. The text must stay within the
/// 32-bit offsets that an address keeps into it: a longer one is refused.
#[verifier::external_body]
pub(crate) fn parse_address(text: &str) -> (parsed: Option<url::Url>)
    requires
        text@.len() <= u32::MAX,
    ensures
        is_plain_address(text@) ==> parsed is Some && url_text(parsed->0) == text@,
{
    url::Url::parse(text).ok()
}

/// `Url::path_segments_mut` and `PathSegmentsMut::push`: to a plain address a
/// slug is added as one more path segment, behind a slash. The result must
/// stay within the 32-bit offsets the address keeps into its text.
#[verifier::external_body]
pub(crate) fn push_segment(url: &mut url::Url, segment: &str)
    requires
        is_plain_address(url_text(*old(url))),
        is_slug(segment@),
        url_text(*old(url)).len() + segment@.len() < u32::MAX,
    ensures
        url_text(*final(url)) == url_text(*old(url)) + seq!['/'] + segment@,
{
    if let Ok(mut path) = url.path_segments_mut() {
        path.push(segment);
    }
}

/// `Url::query_pairs_mut` and `Serializer::append_pair`: to a plain target
/// the pair is added as `name=value`, led by a question mark where it is the
/// first pair and by an ampersand otherwise. Name and value are slugs, which
/// are written as they are.
#[verifier::external_body]
pub(crate) fn append_query_pair(url: &mut url::Url, name: &str, value: &str)
    requires
        is_plain_target(url_text(*old(url))),
        is_slug(name@),
        is_slug(value@),
        url_text(*old(url)).len() + name@.len() + value@.len() + 2 <= u32::MAX,
    ensures
        url_text(*final(url)) == url_text(*old(url)) + seq![pair_joiner(url_text(*old(url)))]
            + name@ + seq!['='] + value@,
{
    url.query_pairs_mut().append_pair(name, value);
}

/// `Url::set_fragment`: to a plain target, which has no fragment, the slug is
/// added behind a hash sign.
#[verifier::external_body]
pub(crate) fn set_anchor(url: &mut url::Url, anchor: &str)
    requires
        is_plain_target(url_text(*old(url))),
        is_slug(anchor@),
        url_text(*old(url)).len() + anchor@.len() < u32::MAX,
    ensures
        url_text(*final(url)) == url_text(*old(url)) + seq!['#'] + anchor@,
{
    url.set_fragment(Some(anchor));
}

/// `String::from` for an address: its text.
#[verifier::external_body]
pub(crate) fn into_text(url: url::Url) -> (text: String)
    ensures
        text@ == url_text(url),
{
    url.into()
}

/// A slug behind a slash keeps a path of slugs one.
pub proof fn lemma_path_push(p: Seq<char>, segment: Seq<char>)
    requires
        is_slug_path(p),
        is_slug(segment),
    ensures
        is_slug_path(p + seq!['/'] + segment),
{
}

/// A slug behind a slash keeps a plain address one.
pub proof fn lemma_address_push(t: Seq<char>, segment: Seq<char>)
    requires
        is_plain_address(t),
        is_slug(segment),
    ensures
        is_plain_address(t + seq!['/'] + segment),
{
    let (host, path) = choose|host: Seq<char>, path: Seq<char>| #[trigger]
        is_address_of(t, host, path);
    lemma_path_push(path, segment);
    let r = t + seq!['/'] + segment;
    assert(r =~= scheme_text() + host + (path + seq!['/'] + segment));
    assert(is_address_of(r, host, path + seq!['/'] + segment));
}

/// A plain address holds no question mark.
pub proof fn lemma_address_has_no_query(t: Seq<char>)
    requires
        is_plain_address(t),
    ensures
        !has_query(t),
{
}

/// A plain address is a plain target, one without a query.
pub proof fn lemma_address_is_target(t: Seq<char>)
    requires
        is_plain_address(t),
    ensures
        is_plain_target(t),
{
    assert(is_target_of(t, t, Seq::<char>::empty()));
}

/// The first pair turns a plain address into a plain target with a query.
pub proof fn lemma_first_pair(t: Seq<char>, name: Seq<char>, value: Seq<char>)
    requires
        is_plain_address(t),
        is_slug(name),
        is_slug(value),
    ensures
        pair_joiner(t) == '?',
        is_plain_target(t + seq!['?'] + name + seq!['='] + value),
        has_query(t + seq!['?'] + name + seq!['='] + value),
{
    lemma_address_has_no_query(t);
    let q = seq!['?'] + name + seq!['='] + value;
    let r = t + seq!['?'] + name + seq!['='] + value;
    assert(r =~= t + q);
    assert(is_target_of(r, t, q));
    assert(r[t.len() as int] == '?');
}

/// A further pair keeps a plain target with a query one.
pub proof fn lemma_next_pair(t: Seq<char>, name: Seq<char>, value: Seq<char>)
    requires
        is_plain_target(t),
        has_query(t),
        is_slug(name),
        is_slug(value),
    ensures
        pair_joiner(t) == '&',
        is_plain_target(t + seq!['&'] + name + seq!['='] + value),
{
    let (a, q) = choose|a: Seq<char>, q: Seq<char>| #[trigger] is_target_of(t, a, q);
    lemma_address_has_no_query(a);
    let tail = seq!['&'] + name + seq!['='] + value;
    let q2 = q + tail;
    let r = t + seq!['&'] + name + seq!['='] + value;
    assert forall|i: int| 1 <= i < q2.len() implies is_query_char(#[trigger] q2[i]) by {
        if i >= q.len() {
            assert(q2[i] == tail[i - q.len()]);
        }
    }
    assert(r =~= a + q2);
    assert(is_target_of(r, a, q2));
}

} // verus!
