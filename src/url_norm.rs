//! Turning an `href` and a base URL into a canonical absolute URL.
//!
//! A canonical URL is the serialization of a parsed URL that has a host
//! and carries no fragment.
use vstd::prelude::*;
use vstd::std_specs::iter::IteratorSpec;

verus! {

/// The serialization of `Url::parse(s)`, or `None` when `s` does not parse.
pub uninterp spec fn parsed(s: Seq<char>) -> Option<Seq<char>>;

/// The serialization of `base.join(href)` for the URL serialized as `base`,
/// or `None` when the reference cannot be resolved.
pub uninterp spec fn joined(base: Seq<char>, href: Seq<char>) -> Option<Seq<char>>;

/// The serialization of the URL serialized as `s` after its fragment is removed.
pub uninterp spec fn defragmented(s: Seq<char>) -> Seq<char>;

/// Whether the URL serialized as `s` has a host.
pub uninterp spec fn has_host(s: Seq<char>) -> bool;

/// `s` is the serialization of a parsed URL: it parses back to itself.
pub open spec fn is_serialized(s: Seq<char>) -> bool {
    parsed(s) == Some(s)
}

/// The URL parser skips leading C0 controls and spaces.
pub open spec fn is_skipped(c: char) -> bool {
    c <= ' '
}

/// A reference that consists of a fragment alone (`#section`): it names a
/// place in the current page rather than another page.
pub open spec fn is_fragment_only(href: Seq<char>) -> bool {
    exists|i: int|
        0 <= i < href.len() && href[i] == '#' && (forall|j: int| 0 <= j < i ==> is_skipped(
            #[trigger] href[j],
        ))
}

/// An absolute `href` is taken as it is; a relative one is resolved
/// against `base`.
pub open spec fn resolved(href: Seq<char>, base: Seq<char>) -> Option<Seq<char>> {
    match parsed(href) {
        Some(u) => Some(u),
        None => joined(base, href),
    }
}

/// The canonical form of `href` on the page at `base`: resolved, with the
/// fragment removed, and only where the result has a host (a reference to a
/// fragment alone is never canonical).
pub open spec fn normalized(href: Seq<char>, base: Seq<char>) -> Option<Seq<char>> {
    if is_fragment_only(href) {
        None
    } else {
        match resolved(href, base) {
            Some(u) => if has_host(defragmented(u)) && !is_fragment_only(defragmented(u)) {
                Some(defragmented(u))
            } else {
                None
            },
            None => None,
        }
    }
}

/// Relies on `url::Url::parse`: the serialization of the parsed URL. The
/// serialization of a URL parses back to the same URL (`Url::check_invariants`).
#[verifier::external_body]
fn parse_url(s: &str) -> (r: Option<String>)
    ensures
        r.deep_view() == parsed(s@),
        r matches Some(t) ==> is_serialized(t@),
{
    match url::Url::parse(s) {
        Ok(u) => Some(u.into()),
        Err(_) => None,
    }
}

/// Relies on `url::Url::join`: resolution of `href` against the URL serialized
/// as `base`, which parses back to that URL.
#[verifier::external_body]
fn join_url(base: &str, href: &str) -> (r: Option<String>)
    requires
        is_serialized(base@),
    ensures
        r.deep_view() == joined(base@, href@),
        r matches Some(t) ==> is_serialized(t@),
{
    match url::Url::parse(base) {
        Ok(b) => match b.join(href) {
            Ok(u) => Some(u.into()),
            Err(_) => None,
        },
        Err(_) => None,
    }
}

/// Relies on `url::Url::set_fragment(None)`: it removes the fragment, and a
/// second removal changes nothing.
#[verifier::external_body]
fn strip_fragment(s: &str) -> (r: String)
    requires
        is_serialized(s@),
    ensures
        r@ == defragmented(s@),
        is_serialized(r@),
        defragmented(r@) == r@,
{
    let mut u = url::Url::parse(s).expect("a serialized URL parses");
    u.set_fragment(None);
    u.into()
}

/// Relies on `url::Url::has_host`.
#[verifier::external_body]
fn url_has_host(s: &str) -> (r: bool)
    requires
        is_serialized(s@),
    ensures
        r == has_host(s@),
{
    url::Url::parse(s).expect("a serialized URL parses").has_host()
}

/// The canonical serialization of `url`, or `None` when it does not parse.
pub fn canonical_base(url: &str) -> (r: Option<String>)
    ensures
        r.deep_view() == parsed(url@),
        r matches Some(t) ==> is_serialized(t@),
{
    parse_url(url)
}

/// Whether `href` is a fragment-only reference.
pub fn fragment_only(href: &str) -> (r: bool)
    ensures
        r == is_fragment_only(href@),
{
    let ghost s = href@;
    proof {
        broadcast use vstd::string::axiom_spec_iter;

    }
    let chars = href.chars();
    for c in it: chars
        invariant
            it.seq() == s,
            s == href@,
            forall|j: int| 0 <= j < it.index() ==> is_skipped(#[trigger] s[j]),
    {
        assert(c == s[it.index()]);
        if c == '#' {
            assert(!is_skipped('#'));
            return true;
        }
        if c > ' ' {
            let ghost i = it.index();
            assert forall|k: int| 0 <= k < s.len() && s[k] == '#' implies !(forall|j: int|
                0 <= j < k ==> is_skipped(#[trigger] s[j])) by {
                assert(!is_skipped('#'));
                if k > i {
                    assert(!is_skipped(s[i]));
                }
            }
            return false;
        }
    }
    false
}

/// Normalizes `href` found on the page whose canonical URL is `base`.
///
/// The result is canonical: it has a host, it carries no fragment, and
/// normalizing it again gives it back unchanged.
pub fn normalize(href: &str, base: &str) -> (r: Option<String>)
    requires
        is_serialized(base@),
    ensures
        r.deep_view() == normalized(href@, base@),
        r matches Some(t) ==> {
            &&& has_host(t@)
            &&& defragmented(t@) == t@
            &&& is_serialized(t@)
            &&& normalized(t@, base@) == Some(t@)
        },
{
    if fragment_only(href) {
        return None;
    }
    let resolved = match parse_url(href) {
        Some(u) => Some(u),
        None => join_url(base, href),
    };
    match resolved {
        Some(u) => {
            let t = strip_fragment(u.as_str());
            if url_has_host(t.as_str()) && !fragment_only(t.as_str()) {
                Some(t)
            } else {
                None
            }
        },
        None => None,
    }
}

} // verus!
