//! Extracting the canonical outbound links of an HTML page.
use vstd::prelude::*;
use crate::url_norm::{canonical_base, has_host, is_serialized, normalize, normalized, parsed};

verus! {

/// The `href` attribute of each anchor element of the HTML document `body`,
/// in document order; `None` for an anchor without one.
pub uninterp spec fn anchor_hrefs(body: Seq<char>) -> Seq<Option<Seq<char>>>;

/// Relies on `scraper::Html::parse_document`, `Selector::parse("a")`,
/// `Html::select` and `Element::attr("href")`: the anchors of the document in
/// document order, each with its `href` attribute if present.
#[verifier::external_body]
fn select_anchor_hrefs(body: &str) -> (r: Vec<Option<String>>)
    ensures
        r.deep_view() == anchor_hrefs(body@),
{
    let document = scraper::Html::parse_document(body);
    let anchors = scraper::Selector::parse("a").expect("`a` is a valid selector");
    document.select(&anchors).map(|e| e.value().attr("href").map(String::from)).collect()
}

/// The canonical links named by `hrefs` on the page at `base`, in order;
/// absent or non-canonicalizable targets contribute nothing.
pub open spec fn extracted(hrefs: Seq<Option<Seq<char>>>, base: Seq<char>) -> Seq<Seq<char>>
    decreases hrefs.len(),
{
    if hrefs.len() == 0 {
        Seq::empty()
    } else {
        let rest = extracted(hrefs.drop_last(), base);
        match hrefs.last() {
            Some(h) => match normalized(h, base) {
                Some(u) => rest.push(u),
                None => rest,
            },
            None => rest,
        }
    }
}

/// The links of the page whose URL is `url`: the anchors of `body`, each
/// normalized against the page's own canonical URL.
pub open spec fn page_links(url: Seq<char>, body: Seq<char>) -> Seq<Seq<char>> {
    extracted(anchor_hrefs(body), parsed(url)->Some_0)
}

/// No extracted link is host-less: `mailto:` links and the like never appear.
pub proof fn lemma_extracted_have_hosts(hrefs: Seq<Option<Seq<char>>>, base: Seq<char>)
    ensures
        forall|i: int|
            0 <= i < extracted(hrefs, base).len() ==> has_host(
                #[trigger] extracted(hrefs, base)[i],
            ),
    decreases hrefs.len(),
{
    if hrefs.len() > 0 {
        let rest = extracted(hrefs.drop_last(), base);
        lemma_extracted_have_hosts(hrefs.drop_last(), base);
        assert forall|i: int| 0 <= i < extracted(hrefs, base).len() implies has_host(
            #[trigger] extracted(hrefs, base)[i],
        ) by {
            if i < rest.len() {
                assert(extracted(hrefs, base)[i] == rest[i]);
            }
        }
    }
}

/// Document order is kept: when every anchor has a target and every target
/// normalizes, the links are the normalized targets, one for one, in the
/// anchors' order.
pub proof fn lemma_document_order(hrefs: Seq<Option<Seq<char>>>, base: Seq<char>)
    requires
        forall|i: int|
            0 <= i < hrefs.len() ==> #[trigger] hrefs[i] is Some && normalized(
                hrefs[i]->Some_0,
                base,
            ) is Some,
    ensures
        extracted(hrefs, base) == hrefs.map_values(
            |h: Option<Seq<char>>| normalized(h->Some_0, base)->Some_0,
        ),
    decreases hrefs.len(),
{
    if hrefs.len() > 0 {
        let init = hrefs.drop_last();
        assert forall|i: int| 0 <= i < init.len() implies #[trigger] init[i] is Some && normalized(
            init[i]->Some_0,
            base,
        ) is Some by {
            assert(init[i] == hrefs[i]);
        }
        lemma_document_order(init, base);
        assert(hrefs[hrefs.len() - 1] is Some);
        assert(extracted(hrefs, base) =~= hrefs.map_values(
            |h: Option<Seq<char>>| normalized(h->Some_0, base)->Some_0,
        ));
    }
}

/// The canonical links named by `hrefs` on the page whose canonical URL is
/// `base`, in order.
pub fn links_from_hrefs(base: &str, hrefs: &Vec<Option<String>>) -> (r: Vec<String>)
    requires
        is_serialized(base@),
    ensures
        r.deep_view() == extracted(hrefs.deep_view(), base@),
{
    let mut links: Vec<String> = Vec::new();
    let mut i: usize = 0;
    while i < hrefs.len()
        invariant
            i <= hrefs.len(),
            is_serialized(base@),
            links.deep_view() == extracted(hrefs.deep_view().take(i as int), base@),
        decreases hrefs.len() - i,
    {
        let ghost prefix = hrefs.deep_view().take(i as int);
        let ghost next = hrefs.deep_view().take(i + 1);
        assert(next.drop_last() =~= prefix);
        assert(next.last() == hrefs[i as int].deep_view());
        match &hrefs[i] {
            Some(h) => match normalize(h.as_str(), base) {
                Some(u) => {
                    links.push(u);
                    assert(links.deep_view() =~= extracted(next, base@));
                },
                None => {},
            },
            None => {},
        }
        i = i + 1;
    }
    assert(hrefs.deep_view().take(hrefs.len() as int) =~= hrefs.deep_view());
    links
}

/// The canonical links of the page at `url` whose HTML is `body`, in
/// document order.
pub fn extract_hrefs_from(url: &str, body: &str) -> (r: Vec<String>)
    requires
        parsed(url@) is Some,
    ensures
        r.deep_view() == page_links(url@, body@),
        forall|i: int| 0 <= i < r.len() ==> has_host(#[trigger] r[i]@),
{
    let base = match canonical_base(url) {
        Some(b) => b,
        None => {
            return Vec::new();
        },
    };
    let hrefs = select_anchor_hrefs(body);
    let r = links_from_hrefs(base.as_str(), &hrefs);
    proof {
        lemma_extracted_have_hosts(hrefs.deep_view(), base@);
        assert forall|i: int| 0 <= i < r.len() implies has_host(#[trigger] r[i]@) by {
            assert(r.deep_view()[i] == r[i]@);
        }
    }
    r
}

} // verus!
