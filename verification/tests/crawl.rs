use spiders::crawler::Action;
use spiders::crawler::FetchError;
use spiders::crawler::PullOutcome;
use spiders::url::Url;
use spiders::visited::ClaimSet;
use spiders::visited::MemorySet;
use spiders::visitor::Visitor;
use spiders::Crawler;

/// Drive a crawler to completion, answering every fetch of `seed_text` with
/// `seed_body` and every other fetch with `other`; collect the fetched URL
/// texts and the outcomes' kinds.
fn run_crawl(
    c: &mut Crawler<MemorySet>,
    seed_text: &[u8],
    seed_body: &[u8],
    other: Result<&[u8], FetchError>,
) -> (Vec<Vec<u8>>, usize, usize) {
    let mut fetched: Vec<Vec<u8>> = Vec::new();
    let mut pages: usize = 0;
    let mut failures: usize = 0;
    loop {
        match c.next_action() {
            Action::Finished => break,
            Action::Fetch(u) => {
                let text = u.text();
                fetched.push(text.clone());
                let outcome = if text == seed_text { Ok(seed_body) } else { other };
                match c.on_fetch_complete(outcome) {
                    PullOutcome::Page(pu, _doc) => {
                        assert_eq!(pu.text(), text);
                        pages += 1;
                    }
                    PullOutcome::Failed(pu, _e) => {
                        assert_eq!(pu.text(), text);
                        failures += 1;
                    }
                }
            }
        }
    }
    (fetched, pages, failures)
}

#[test]
fn second_visit_is_deduplicated() {
    let mut v = Visitor::new();
    let u = Url::parse(b"http://x.test/").unwrap();
    assert!(v.begin_visit(&u));
    assert!(!v.begin_visit(&u));
}

#[test]
fn shared_store_observes_prior_claim() {
    let mut store = MemorySet::new();
    assert!(store.claim(b"http://x.test/".to_vec()));
    let mut v = Visitor::with_store(store);
    let u = Url::parse(b"http://x.test/").unwrap();
    assert!(!v.begin_visit(&u));
}

#[test]
fn memory_set_claims_each_key_once() {
    let mut s = MemorySet::new();
    assert!(s.claim(b"a".to_vec()));
    assert!(s.claim(b"b".to_vec()));
    assert!(!s.claim(b"a".to_vec()));
    assert!(!s.claim(b"b".to_vec()));
}

#[test]
fn links_are_resolved_in_document_order() {
    let v: Visitor<MemorySet> = Visitor::new();
    let base = Url::parse(b"http://x.test/").unwrap();
    let body: &[u8] =
        b"<html><body><a href=\"/a\">a</a><a href=\"#\">top</a><a href=\"http://other.test/b\">b</a></body></html>";
    let (_doc, links) = v.finish_visit(&base, body);
    let texts: Vec<Vec<u8>> = links.iter().map(|u| u.text()).collect();
    assert_eq!(texts, vec![b"http://x.test/a".to_vec(), b"http://other.test/b".to_vec()]);
}

#[test]
fn crawl_scenario_fragment_dropped_lifo_order() {
    let seed = Url::parse(b"http://x.test/").unwrap();
    let mut c = Crawler::new(seed);
    assert_eq!(c.limit_visits(5), None);
    let body: &[u8] =
        b"<a href=\"/a\"></a><a href=\"#\"></a><a href=\"http://other.test/b\"></a>";
    let (fetched, pages, failures) = run_crawl(&mut c, b"http://x.test/", body, Ok(b""));
    // the bare "#" contributes nothing; the most recently discovered link is
    // fetched first
    assert_eq!(
        fetched,
        vec![
            b"http://x.test/".to_vec(),
            b"http://other.test/b".to_vec(),
            b"http://x.test/a".to_vec(),
        ]
    );
    assert_eq!(pages, 3);
    assert_eq!(failures, 0);
}

#[test]
fn lifo_two_links() {
    let seed = Url::parse(b"http://x.test/").unwrap();
    let mut c = Crawler::new(seed);
    let body: &[u8] = b"<a href=\"/l1\"></a><a href=\"/l2\"></a>";
    let (fetched, _, _) = run_crawl(&mut c, b"http://x.test/", body, Ok(b""));
    assert_eq!(
        fetched,
        vec![
            b"http://x.test/".to_vec(),
            b"http://x.test/l2".to_vec(),
            b"http://x.test/l1".to_vec(),
        ]
    );
}

#[test]
fn host_filter_drops_other_hosts() {
    let seed = Url::parse(b"http://a.example/").unwrap();
    let mut c = Crawler::new(seed);
    assert_eq!(c.limit_host(b"a.example".to_vec()), None);
    let body: &[u8] = b"<a href=\"http://b.example/x\"></a><a href=\"/y\"></a>";
    let (fetched, _, _) = run_crawl(&mut c, b"http://a.example/", body, Ok(b""));
    assert_eq!(fetched, vec![b"http://a.example/".to_vec(), b"http://a.example/y".to_vec()]);
}

#[test]
fn limit_host_returns_previous_value() {
    let seed = Url::parse(b"http://a.example/").unwrap();
    let mut c = Crawler::new(seed);
    assert_eq!(c.limit_host(b"a.example".to_vec()), None);
    assert_eq!(c.limit_host(b"b.example".to_vec()), Some(b"a.example".to_vec()));
}

#[test]
fn budget_caps_attempts_and_outcomes() {
    let seed = Url::parse(b"http://x.test/").unwrap();
    let mut c = Crawler::new(seed);
    assert_eq!(c.limit_visits(2), None);
    assert_eq!(c.limit_visits(2), Some(2));
    let body: &[u8] = b"<a href=\"/1\"></a><a href=\"/2\"></a><a href=\"/3\"></a>";
    let (fetched, pages, failures) = run_crawl(&mut c, b"http://x.test/", body, Ok(b""));
    assert_eq!(fetched.len(), 2);
    assert!(pages + failures <= 2);
}

#[test]
fn failure_is_surfaced_and_crawl_goes_on() {
    let seed = Url::parse(b"http://x.test/").unwrap();
    let mut c = Crawler::new(seed);
    let body: &[u8] = b"<a href=\"/a\"></a>";
    let (fetched, pages, failures) =
        run_crawl(&mut c, b"http://x.test/", body, Err(FetchError::Transport));
    // the failed URL was still claimed: it is attempted once and never retried
    assert_eq!(fetched, vec![b"http://x.test/".to_vec(), b"http://x.test/a".to_vec()]);
    assert_eq!(pages, 1);
    assert_eq!(failures, 1);
}

#[test]
fn every_failure_kind_is_surfaced_unchanged() {
    let kinds = vec![
        FetchError::Transport,
        FetchError::HttpStatus(404),
        FetchError::BodyRead,
        FetchError::DedupStore,
    ];
    for kind in kinds {
        let seed = Url::parse(b"http://x.test/").unwrap();
        let mut c = Crawler::new(seed);
        match c.next_action() {
            Action::Fetch(u) => {
                assert_eq!(u.text(), b"http://x.test/".to_vec());
                match c.on_fetch_complete(Err(kind)) {
                    PullOutcome::Failed(_, e) => assert_eq!(e, kind),
                    PullOutcome::Page(_, _) => panic!("a failed fetch must not yield a page"),
                }
            }
            Action::Finished => panic!("the seed must be fetched"),
        }
        match c.next_action() {
            Action::Finished => {}
            Action::Fetch(_) => panic!("the frontier is exhausted"),
        }
    }
}

#[test]
fn finished_crawl_stays_finished() {
    let seed = Url::parse(b"http://x.test/").unwrap();
    let mut c = Crawler::new(seed);
    let (_, _, _) = run_crawl(&mut c, b"http://x.test/", b"", Ok(b""));
    assert!(matches!(c.next_action(), Action::Finished));
    assert!(matches!(c.next_action(), Action::Finished));
}
