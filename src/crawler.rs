//! The crawl state: a FIFO frontier of URLs awaiting a visit and the link
//! graph from each visited URL to the links found on it, with the decisions
//! of a crawl step. Fetching pages is left to the caller, who hands each
//! outcome back.
use vstd::prelude::*;
use std::collections::VecDeque;
use crate::extract::{extract_hrefs_from, page_links};
use crate::url_norm::{canonical_base, parsed};

verus! {

/// The ways a crawl step can fail.
#[derive(Clone, Debug, PartialEq, Eq, Structural)]
pub enum CrawlerError {
    /// The page could not be fetched.
    RequestError,
    /// The frontier had nothing to hand out.
    EmptyQueue,
    /// The URL to visit is not a valid absolute URL.
    UrlParseError,
}

/// The abstract crawl state: the frontier, head first, and the link graph.
pub type CrawlState = (Seq<Seq<char>>, Map<Seq<char>, Seq<Seq<char>>>);

/// Graph entries as a map; a later entry for a key replaces an earlier one.
pub open spec fn graph_of(e: Seq<(String, Vec<String>)>) -> Map<Seq<char>, Seq<Seq<char>>>
    decreases e.len(),
{
    if e.len() == 0 {
        Map::empty()
    } else {
        graph_of(e.drop_last()).insert(e.last().0@, e.last().1.deep_view())
    }
}

/// No two graph entries share a key.
pub open spec fn keys_unique(e: Seq<(String, Vec<String>)>) -> bool {
    forall|i: int, j: int| 0 <= i < j < e.len() ==> e[i].0@ != e[j].0@
}

/// The state after visiting `url`, whose fetch gave `body` (`None` when it
/// failed): the page's links join the tail of the frontier, and its entry in
/// the graph is set to them, replacing any earlier one. A URL that does not
/// parse, or a failed fetch, leaves the state as it was.
pub open spec fn after_visit(s: CrawlState, url: Seq<char>, body: Option<Seq<char>>) -> CrawlState {
    match body {
        Some(b) => if parsed(url) is Some {
            (s.0 + page_links(url, b), s.1.insert(url, page_links(url, b)))
        } else {
            s
        },
        None => s,
    }
}

/// The state after the outcomes of a batch of fetches are applied in turn.
pub open spec fn after_batch(
    s: CrawlState,
    outcomes: Seq<(Seq<char>, Option<Seq<char>>)>,
) -> CrawlState
    decreases outcomes.len(),
{
    if outcomes.len() == 0 {
        s
    } else {
        after_visit(
            after_batch(s, outcomes.drop_last()),
            outcomes.last().0,
            outcomes.last().1,
        )
    }
}

proof fn lemma_graph_keys(e: Seq<(String, Vec<String>)>)
    ensures
        graph_of(e).dom().finite(),
        forall|k: Seq<char>|
            graph_of(e).contains_key(k) <==> exists|i: int| 0 <= i < e.len() && #[trigger] e[i].0@ == k,
        keys_unique(e) ==> graph_of(e).dom().len() == e.len(),
    decreases e.len(),
{
    if e.len() > 0 {
        let init = e.drop_last();
        lemma_graph_keys(init);
        assert forall|k: Seq<char>|
            graph_of(e).contains_key(k) <==> exists|i: int| 0 <= i < e.len() && #[trigger] e[i].0@ == k by {
            if graph_of(init).contains_key(k) {
                let i = choose|i: int| 0 <= i < init.len() && #[trigger] init[i].0@ == k;
                assert(e[i] == init[i]);
            }
            if exists|i: int| 0 <= i < e.len() && #[trigger] e[i].0@ == k {
                let i = choose|i: int| 0 <= i < e.len() && #[trigger] e[i].0@ == k;
                if i < e.len() - 1 {
                    assert(init[i] == e[i]);
                }
            }
        }
        if keys_unique(e) {
            assert(keys_unique(init)) by {
                assert forall|i: int, j: int| 0 <= i < j < init.len() implies init[i].0@ != init[j].0@ by {
                    assert(init[i] == e[i] && init[j] == e[j]);
                }
            }
            assert(!graph_of(init).contains_key(e.last().0@)) by {
                if graph_of(init).contains_key(e.last().0@) {
                    let i = choose|i: int| 0 <= i < init.len() && #[trigger] init[i].0@ == e.last().0@;
                    assert(init[i] == e[i]);
                }
            }
        }
    }
}

proof fn lemma_graph_update(e: Seq<(String, Vec<String>)>, i: int, x: (String, Vec<String>))
    requires
        keys_unique(e),
        0 <= i < e.len(),
        e[i].0@ == x.0@,
    ensures
        graph_of(e.update(i, x)) == graph_of(e).insert(x.0@, x.1.deep_view()),
        keys_unique(e.update(i, x)),
    decreases e.len(),
{
    let u = e.update(i, x);
    let init = e.drop_last();
    assert(keys_unique(u)) by {
        assert forall|a: int, b: int| 0 <= a < b < u.len() implies u[a].0@ != u[b].0@ by {
            assert(u[a].0@ == e[a].0@ && u[b].0@ == e[b].0@);
        }
    }
    if i == e.len() - 1 {
        assert(u.drop_last() =~= init);
        assert(graph_of(u) =~= graph_of(e).insert(x.0@, x.1.deep_view()));
    } else {
        assert(keys_unique(init)) by {
            assert forall|a: int, b: int| 0 <= a < b < init.len() implies init[a].0@ != init[b].0@ by {
                assert(init[a] == e[a] && init[b] == e[b]);
            }
        }
        lemma_graph_update(init, i, x);
        assert(u.drop_last() =~= init.update(i, x));
        assert(e.last().0@ != x.0@);
        assert(graph_of(u) =~= graph_of(e).insert(x.0@, x.1.deep_view()));
    }
}

/// Visits never forget a page: the number of visited URLs never goes down,
/// whatever outcomes are applied.
pub proof fn lemma_explored_monotone(s: CrawlState, outcomes: Seq<(Seq<char>, Option<Seq<char>>)>)
    requires
        s.1.dom().finite(),
    ensures
        s.1.dom().subset_of(after_batch(s, outcomes).1.dom()),
        after_batch(s, outcomes).1.dom().finite(),
        after_batch(s, outcomes).1.dom().len() >= s.1.dom().len(),
    decreases outcomes.len(),
{
    if outcomes.len() > 0 {
        lemma_explored_monotone(s, outcomes.drop_last());
    }
    vstd::set_lib::lemma_len_subset(s.1.dom(), after_batch(s, outcomes).1.dom());
}

/// Visiting the same URL twice replaces its graph entry with the links of
/// the second fetch; the two lists are not merged.
pub proof fn lemma_revisit_overwrites(
    s: CrawlState,
    url: Seq<char>,
    first: Seq<char>,
    second: Seq<char>,
)
    requires
        parsed(url) is Some,
    ensures
        after_visit(after_visit(s, url, Some(first)), url, Some(second)).1 == s.1.insert(
            url,
            page_links(url, second),
        ),
        after_visit(after_visit(s, url, Some(first)), url, Some(second)).1[url] == page_links(
            url,
            second,
        ),
{
    assert(after_visit(after_visit(s, url, Some(first)), url, Some(second)).1 =~= s.1.insert(
        url,
        page_links(url, second),
    ));
}

/// The canonical form of the URL to fetch for a visit of `url`, or
/// `UrlParseError` when `url` is not a valid absolute URL.
pub fn fetch_target(url: &str) -> (r: Result<String, CrawlerError>)
    ensures
        match parsed(url@) {
            Some(t) => r matches Ok(x) && x@ == t,
            None => r == Err::<String, CrawlerError>(CrawlerError::UrlParseError),
        },
{
    match canonical_base(url) {
        Some(t) => Ok(t),
        None => Err(CrawlerError::UrlParseError),
    }
}

/// A copy of `v`, string by string.
fn copy_strings(v: &Vec<String>) -> (r: Vec<String>)
    ensures
        r.deep_view() == v.deep_view(),
{
    let mut r: Vec<String> = Vec::new();
    let mut i: usize = 0;
    while i < v.len()
        invariant
            i <= v.len(),
            r.deep_view() == v.deep_view().take(i as int),
        decreases v.len() - i,
    {
        let ghost before = r.deep_view();
        let c = v[i].clone();
        r.push(c);
        assert(r.deep_view() =~= before.push(v[i as int]@));
        assert(r.deep_view() =~= v.deep_view().take(i + 1));
        i = i + 1;
    }
    assert(v.deep_view().take(v.len() as int) =~= v.deep_view());
    r
}

/// A breadth-first crawler: the frontier and the link graph it has built.
pub struct Crawler {
    nodes: Vec<(String, Vec<String>)>,
    queue: VecDeque<String>,
}

impl View for Crawler {
    type V = CrawlState;

    closed spec fn view(&self) -> CrawlState {
        (self.queue.deep_view(), graph_of(self.nodes@))
    }
}

impl Crawler {
    /// The graph keys are unique.
    pub closed spec fn wf(&self) -> bool {
        keys_unique(self.nodes@)
    }

    /// A crawler whose frontier holds `url` alone and whose graph is empty.
    pub fn new(url: String) -> (r: Self)
        ensures
            r.wf(),
            r@.0 == seq![url@],
            r@.1 == Map::<Seq<char>, Seq<Seq<char>>>::empty(),
    {
        let mut queue: VecDeque<String> = VecDeque::new();
        queue.push_front(url);
        let r = Crawler { nodes: Vec::new(), queue };
        assert(r@.0 =~= seq![url@]);
        r
    }

    /// A crawler restored from a saved frontier (head first) and graph
    /// entries; where entries share a key, the later one is kept.
    pub fn from_parts(queue: Vec<String>, entries: Vec<(String, Vec<String>)>) -> (r: Self)
        ensures
            r.wf(),
            r@.0 == queue.deep_view(),
            r@.1 == graph_of(entries@),
    {
        let mut r = Crawler { nodes: Vec::new(), queue: VecDeque::new() };
        assert(r@.0 =~= Seq::<Seq<char>>::empty());
        let mut i: usize = 0;
        while i < queue.len()
            invariant
                i <= queue.len(),
                r.wf(),
                r@.0 == queue.deep_view().take(i as int),
                r@.1 == Map::<Seq<char>, Seq<Seq<char>>>::empty(),
            decreases queue.len() - i,
        {
            r.add_to_queue(queue[i].clone());
            assert(r@.0 =~= queue.deep_view().take(i + 1));
            i = i + 1;
        }
        assert(queue.deep_view().take(queue.len() as int) =~= queue.deep_view());
        let mut j: usize = 0;
        while j < entries.len()
            invariant
                j <= entries.len(),
                r.wf(),
                r@.0 == queue.deep_view(),
                r@.1 == graph_of(entries@.take(j as int)),
            decreases entries.len() - j,
        {
            let key = entries[j].0.clone();
            let links = copy_strings(&entries[j].1);
            r.insert_node(key, links);
            assert(entries@.take(j + 1).drop_last() =~= entries@.take(j as int));
            j = j + 1;
        }
        assert(entries@.take(entries.len() as int) =~= entries@);
        r
    }

    /// Sets the graph entry of `url` to `links`, replacing any earlier one.
    fn insert_node(&mut self, url: String, links: Vec<String>)
        requires
            old(self).wf(),
        ensures
            final(self).wf(),
            final(self)@ == (old(self)@.0, old(self)@.1.insert(url@, links.deep_view())),
    {
        let mut i: usize = 0;
        while i < self.nodes.len()
            invariant
                i <= self.nodes.len(),
                self.nodes@ == old(self).nodes@,
                self.queue == old(self).queue,
                keys_unique(self.nodes@),
                forall|j: int| 0 <= j < i ==> (#[trigger] self.nodes@[j]).0@ != url@,
            decreases self.nodes.len() - i,
        {
            if self.nodes[i].0 == url {
                let ghost e = self.nodes@;
                proof {
                    lemma_graph_update(e, i as int, (url, links));
                }
                self.nodes.set(i, (url, links));
                return;
            }
            i = i + 1;
        }
        let ghost e = self.nodes@;
        self.nodes.push((url, links));
        assert(self.nodes@.drop_last() =~= e);
        assert(keys_unique(self.nodes@)) by {
            assert forall|a: int, b: int| 0 <= a < b < self.nodes@.len() implies self.nodes@[a].0@
                != self.nodes@[b].0@ by {
                if b < e.len() {
                    assert(self.nodes@[a] == e[a] && self.nodes@[b] == e[b]);
                } else {
                    assert(self.nodes@[a] == e[a]);
                }
            }
        }
    }

    /// Appends `url` to the tail of the frontier.
    pub fn add_to_queue(&mut self, url: String)
        requires
            old(self).wf(),
        ensures
            final(self).wf(),
            final(self)@ == (old(self)@.0.push(url@), old(self)@.1),
    {
        self.queue.push_back(url);
        assert(self@.0 =~= old(self)@.0.push(url@));
    }

    /// The number of distinct URLs visited.
    pub fn explored_nodes(&self) -> (r: usize)
        requires
            self.wf(),
        ensures
            r == self@.1.dom().len(),
    {
        proof {
            lemma_graph_keys(self.nodes@);
        }
        self.nodes.len()
    }

    /// Whether `url` has been visited, that is, is a key of the graph.
    pub fn is_known(&self, url: &String) -> (r: bool)
        ensures
            r == self@.1.contains_key(url@),
    {
        proof {
            lemma_graph_keys(self.nodes@);
        }
        let mut i: usize = 0;
        while i < self.nodes.len()
            invariant
                i <= self.nodes.len(),
                forall|j: int| 0 <= j < i ==> (#[trigger] self.nodes@[j]).0@ != url@,
            decreases self.nodes.len() - i,
        {
            if self.nodes[i].0 == *url {
                assert(self.nodes@[i as int].0@ == url@);
                proof {
                    lemma_graph_keys(self.nodes@);
                }
                return true;
            }
            i = i + 1;
        }
        false
    }

    /// One step of a crawl, up to the fetch: takes the head of the frontier.
    /// Gives `EmptyQueue` when the frontier is empty; `Ok(None)` when
    /// `skip_if_known` is set and the head was visited already, so that it is
    /// dropped; else `Ok(Some(url))`, the URL to visit next.
    pub fn next_to_visit(&mut self, skip_if_known: bool) -> (r: Result<
        Option<String>,
        CrawlerError,
    >)
        requires
            old(self).wf(),
        ensures
            final(self).wf(),
            final(self)@.1 == old(self)@.1,
            old(self)@.0.len() == 0 ==> {
                &&& r == Err::<Option<String>, CrawlerError>(CrawlerError::EmptyQueue)
                &&& final(self)@.0 == old(self)@.0
            },
            old(self)@.0.len() > 0 ==> {
                &&& final(self)@.0 == old(self)@.0.drop_first()
                &&& r matches Ok(next) && if skip_if_known && old(self)@.1.contains_key(
                    old(self)@.0[0],
                ) {
                    next is None
                } else {
                    next matches Some(u) && u@ == old(self)@.0[0]
                }
            },
    {
        match self.queue.pop_front() {
            Some(url) => {
                assert(self@.0 =~= old(self)@.0.drop_first());
                if skip_if_known && self.is_known(&url) {
                    Ok(None)
                } else {
                    Ok(Some(url))
                }
            },
            None => Err(CrawlerError::EmptyQueue),
        }
    }

    /// Takes up to `n` URLs from the head of the frontier, in order, for a
    /// batch of concurrent fetches. Gives `EmptyQueue` when the frontier is
    /// empty. Visited URLs are not skipped.
    pub fn take_batch(&mut self, n: usize) -> (r: Result<Vec<String>, CrawlerError>)
        requires
            old(self).wf(),
        ensures
            final(self).wf(),
            final(self)@.1 == old(self)@.1,
            old(self)@.0.len() == 0 ==> {
                &&& r == Err::<Vec<String>, CrawlerError>(CrawlerError::EmptyQueue)
                &&& final(self)@.0 == old(self)@.0
            },
            old(self)@.0.len() > 0 ==> {
                let k = if n < old(self)@.0.len() {
                    n as int
                } else {
                    old(self)@.0.len() as int
                };
                &&& r matches Ok(batch) && batch.deep_view() == old(self)@.0.take(k)
                &&& final(self)@.0 == old(self)@.0.skip(k)
            },
    {
        if self.queue.len() == 0 {
            return Err(CrawlerError::EmptyQueue);
        }
        let mut batch: Vec<String> = Vec::new();
        while batch.len() < n && self.queue.len() > 0
            invariant
                self.wf(),
                self@.1 == old(self)@.1,
                batch.len() <= n,
                old(self)@.0 == batch.deep_view() + self@.0,
            decreases n - batch.len(),
        {
            let ghost rest = self@.0;
            match self.queue.pop_front() {
                Some(url) => {
                    let ghost b = batch.deep_view();
                    batch.push(url);
                    assert(batch.deep_view() =~= b.push(rest[0]));
                    assert(old(self)@.0 =~= batch.deep_view() + self@.0);
                },
                None => {},
            }
        }
        proof {
            let k = batch.len() as int;
            assert(old(self)@.0.take(k) =~= batch.deep_view());
            assert(old(self)@.0.skip(k) =~= self@.0);
        }
        Ok(batch)
    }

    /// Completes a visit of `url`, whose fetch gave `body` (`None` when it
    /// failed). A URL that does not parse gives `UrlParseError` and a failed
    /// fetch `RequestError`, both leaving the state as it was. Otherwise the
    /// page's links, in document order, join the tail of the frontier, and the
    /// graph entry of `url` is set to them, replacing any earlier one.
    pub fn record_visit(&mut self, url: String, body: Option<String>) -> (r: Result<
        (),
        CrawlerError,
    >)
        requires
            old(self).wf(),
        ensures
            final(self).wf(),
            final(self)@ == after_visit(old(self)@, url@, body.deep_view()),
            final(self)@.1.dom().len() >= old(self)@.1.dom().len(),
            r == if parsed(url@) is None {
                Err(CrawlerError::UrlParseError)
            } else if body is None {
                Err(CrawlerError::RequestError)
            } else {
                Ok::<(), CrawlerError>(())
            },
    {
        proof {
            lemma_graph_keys(self.nodes@);
        }
        if let Err(e) = fetch_target(url.as_str()) {
            return Err(e);
        }
        let page = match body {
            Some(p) => p,
            None => {
                return Err(CrawlerError::RequestError);
            },
        };
        let links = extract_hrefs_from(url.as_str(), page.as_str());
        let mut i: usize = 0;
        while i < links.len()
            invariant
                i <= links.len(),
                self.wf(),
                self@.1 == old(self)@.1,
                self@.0 == old(self)@.0 + links.deep_view().take(i as int),
            decreases links.len() - i,
        {
            self.add_to_queue(links[i].clone());
            assert(self@.0 =~= old(self)@.0 + links.deep_view().take(i + 1));
            i = i + 1;
        }
        assert(links.deep_view().take(links.len() as int) =~= links.deep_view());
        self.insert_node(url, links);
        proof {
            lemma_graph_keys(self.nodes@);
            lemma_explored_monotone(old(self)@, seq![(url@, body.deep_view())]);
            assert(seq![(url@, body.deep_view())].drop_last() =~= Seq::<
                (Seq<char>, Option<Seq<char>>),
            >::empty());
        }
        Ok(())
    }

    /// Applies the outcomes of a batch of fetches in turn, each a URL and the
    /// body fetched for it (`None` when the fetch failed). A failed fetch, or
    /// a URL that does not parse, contributes nothing and does not stop the
    /// others.
    pub fn record_batch(&mut self, outcomes: Vec<(String, Option<String>)>)
        requires
            old(self).wf(),
        ensures
            final(self).wf(),
            final(self)@ == after_batch(old(self)@, outcomes.deep_view()),
            final(self)@.1.dom().len() >= old(self)@.1.dom().len(),
    {
        proof {
            lemma_graph_keys(self.nodes@);
        }
        let ghost elems = outcomes@;
        let ghost all = outcomes.deep_view();
        proof {
            broadcast use vstd::std_specs::vec::axiom_spec_into_iter;

        }
        for item in it: outcomes.into_iter()
            invariant
                it.seq() == elems,
                all.len() == elems.len(),
                forall|j: int| 0 <= j < all.len() ==> #[trigger] all[j] == elems[j].deep_view(),
                self.wf(),
                self@ == after_batch(old(self)@, all.take(it.index())),
        {
            let ghost i = it.index();
            let (url, body) = item;
            assert(all[i] == (url@, body.deep_view()));
            assert(all.take(i + 1).drop_last() =~= all.take(i));
            assert(all.take(i + 1).last() == all[i]);
            let _ = self.record_visit(url, body);
        }
        assert(all.take(all.len() as int) =~= all);
        proof {
            lemma_graph_keys(self.nodes@);
            lemma_explored_monotone(old(self)@, all);
        }
    }

    /// The frontier, head first.
    pub fn queued(&self) -> (r: Vec<String>)
        ensures
            r.deep_view() == self@.0,
    {
        let mut r: Vec<String> = Vec::new();
        let mut i: usize = 0;
        while i < self.queue.len()
            invariant
                i <= self.queue.len(),
                r.deep_view() == self@.0.take(i as int),
            decreases self.queue.len() - i,
        {
            let ghost before = r.deep_view();
            r.push(self.queue[i].clone());
            assert(r.deep_view() =~= before.push(self@.0[i as int]));
            assert(r.deep_view() =~= self@.0.take(i + 1));
            i = i + 1;
        }
        assert(self@.0.take(self.queue.len() as int) =~= self@.0);
        r
    }

    /// The graph entries, one per visited URL.
    pub fn graph_entries(&self) -> (r: Vec<(String, Vec<String>)>)
        requires
            self.wf(),
        ensures
            keys_unique(r@),
            graph_of(r@) == self@.1,
    {
        let mut r: Vec<(String, Vec<String>)> = Vec::new();
        let mut i: usize = 0;
        while i < self.nodes.len()
            invariant
                i <= self.nodes.len(),
                keys_unique(self.nodes@),
                r.len() == i,
                forall|j: int| 0 <= j < i ==> (#[trigger] r@[j]).0@ == self.nodes@[j].0@ && r@[j].1.deep_view() == self.nodes@[j].1.deep_view(),
                graph_of(r@) == graph_of(self.nodes@.take(i as int)),
            decreases self.nodes.len() - i,
        {
            let key = self.nodes[i].0.clone();
            let links = copy_strings(&self.nodes[i].1);
            let ghost before = r@;
            r.push((key, links));
            assert(r@.drop_last() =~= before);
            assert(self.nodes@.take(i + 1).drop_last() =~= self.nodes@.take(i as int));
            i = i + 1;
        }
        assert(self.nodes@.take(self.nodes.len() as int) =~= self.nodes@);
        r
    }
}

} // verus!
