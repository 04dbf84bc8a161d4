use web_crawler::crawler::{fetch_target, Crawler, CrawlerError};

const A: &str = "https://a.example/";
const B: &str = "https://b.example/";
const C: &str = "https://c.example/";

fn page(links: &[&str]) -> String {
    let mut body = String::from("<html><body>");
    for l in links {
        body.push_str(&format!("<a href=\"{}\">x</a>", l));
    }
    body.push_str("</body></html>");
    body
}

#[test]
fn new_crawler_holds_seed() {
    let c = Crawler::new(A.to_string());
    assert_eq!(c.queued(), [A]);
    assert_eq!(c.explored_nodes(), 0);
    assert!(c.graph_entries().is_empty());
}

#[test]
fn step_visit_then_failed_fetch() {
    let mut c = Crawler::new(A.to_string());
    let next = c.next_to_visit(true).unwrap();
    assert_eq!(next, Some(A.to_string()));
    assert_eq!(c.record_visit(A.to_string(), Some(page(&[B, C]))), Ok(()));
    assert_eq!(c.queued(), [B, C]);
    assert_eq!(c.graph_entries(), vec![(A.to_string(), vec![B.to_string(), C.to_string()])]);
    assert_eq!(c.explored_nodes(), 1);

    let next = c.next_to_visit(true).unwrap();
    assert_eq!(next, Some(B.to_string()));
    assert_eq!(c.record_visit(B.to_string(), None), Err(CrawlerError::RequestError));
    assert_eq!(c.graph_entries(), vec![(A.to_string(), vec![B.to_string(), C.to_string()])]);
    assert_eq!(c.queued(), [C]);
}

#[test]
fn empty_frontier_is_reported() {
    let mut c = Crawler::new(A.to_string());
    assert_eq!(c.next_to_visit(false), Ok(Some(A.to_string())));
    assert_eq!(c.next_to_visit(false), Err(CrawlerError::EmptyQueue));
    assert_eq!(c.take_batch(3), Err(CrawlerError::EmptyQueue));
}

#[test]
fn known_url_is_skipped_only_when_asked() {
    let mut c = Crawler::new(A.to_string());
    c.record_visit(A.to_string(), Some(page(&[]))).unwrap();
    c.add_to_queue(A.to_string());
    c.add_to_queue(A.to_string());
    assert!(c.is_known(&A.to_string()));
    assert!(!c.is_known(&B.to_string()));
    assert_eq!(c.next_to_visit(true), Ok(None));
    assert_eq!(c.next_to_visit(false), Ok(Some(A.to_string())));
}

#[test]
fn unparsable_url_is_rejected() {
    let mut c = Crawler::new("not a url".to_string());
    assert_eq!(fetch_target("not a url"), Err(CrawlerError::UrlParseError));
    assert_eq!(fetch_target("https://a.example"), Ok(A.to_string()));
    let before = c.queued();
    assert_eq!(
        c.record_visit("not a url".to_string(), Some(page(&[B]))),
        Err(CrawlerError::UrlParseError)
    );
    assert_eq!(c.queued(), before);
    assert_eq!(c.explored_nodes(), 0);
}

#[test]
fn revisit_overwrites_links() {
    let mut c = Crawler::new(A.to_string());
    c.record_visit(A.to_string(), Some(page(&[B]))).unwrap();
    c.record_visit(A.to_string(), Some(page(&[C]))).unwrap();
    assert_eq!(c.graph_entries(), vec![(A.to_string(), vec![C.to_string()])]);
    assert_eq!(c.explored_nodes(), 1);
    assert_eq!(c.queued(), [A, B, C]);
}

#[test]
fn explored_count_never_decreases() {
    let mut c = Crawler::new(A.to_string());
    let mut last = c.explored_nodes();
    let _ = c.record_visit(A.to_string(), Some(page(&[B, C])));
    assert!(c.explored_nodes() >= last);
    last = c.explored_nodes();
    let _ = c.record_visit(B.to_string(), None);
    assert!(c.explored_nodes() >= last);
    last = c.explored_nodes();
    let batch = c.take_batch(5).unwrap();
    let outcomes = batch.into_iter().map(|u| (u, None)).collect();
    c.record_batch(outcomes);
    assert!(c.explored_nodes() >= last);
    assert_eq!(c.explored_nodes(), 1);
}

#[test]
fn take_batch_takes_at_most_n_in_order() {
    let mut c = Crawler::new(A.to_string());
    c.add_to_queue(B.to_string());
    c.add_to_queue(C.to_string());
    assert_eq!(c.take_batch(0), Ok(vec![]));
    assert_eq!(c.take_batch(2), Ok(vec![A.to_string(), B.to_string()]));
    assert_eq!(c.take_batch(10), Ok(vec![C.to_string()]));
    assert!(c.queued().is_empty());
}

#[test]
fn batch_failures_drop_only_their_own_contribution() {
    let mut c = Crawler::new(A.to_string());
    c.add_to_queue(B.to_string());
    let batch = c.take_batch(2).unwrap();
    assert_eq!(batch, [A, B]);
    c.record_batch(vec![
        (A.to_string(), None),
        (B.to_string(), Some(page(&[C, "mailto:x@y.z"]))),
    ]);
    assert_eq!(c.graph_entries(), vec![(B.to_string(), vec![C.to_string()])]);
    assert_eq!(c.queued(), [C]);
}

#[test]
fn from_parts_round_trips() {
    let entries = vec![
        (A.to_string(), vec![B.to_string()]),
        (B.to_string(), vec![]),
        (A.to_string(), vec![C.to_string()]),
    ];
    let c = Crawler::from_parts(vec![C.to_string(), A.to_string()], entries);
    assert_eq!(c.queued(), [C, A]);
    assert_eq!(c.explored_nodes(), 2);
    let mut got = c.graph_entries();
    got.sort();
    assert_eq!(got, vec![(A.to_string(), vec![C.to_string()]), (B.to_string(), vec![])]);
    let again = Crawler::from_parts(c.queued(), c.graph_entries());
    assert_eq!(again.queued(), c.queued());
    assert_eq!(again.graph_entries(), c.graph_entries());
}
