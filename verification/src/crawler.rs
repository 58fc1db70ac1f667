//! The crawler: a work frontier of pending URLs, popped last-in-first-out, a
//! host filter and a visit budget, and a pull-driven state machine around the
//! one fetch that may be outstanding at a time. The caller performs the fetch
//! itself: `next_action` picks, claims and hands out the next URL to fetch,
//! and `on_fetch_complete` folds the outcome back in and yields the result.

use vstd::prelude::*;
use crate::html::hrefs_of;
use crate::url::bytes_eq;
use crate::url::text_of;
use crate::url::Url;
use crate::url::UrlView;
use crate::visited::ClaimSet;
use crate::visited::MemorySet;
use crate::visitor::links_of;
use crate::visitor::views_of;
use crate::visitor::Visitor;

verus! {

/// Why one fetch failed; surfaced per pull, never fatal to the crawl.
#[derive(Clone, Copy, Debug, PartialEq, Eq, Structural)]
pub enum FetchError {
    /// Connection refused, timeout, TLS failure.
    Transport,
    /// A response with the given non-2xx status.
    HttpStatus(u16),
    /// An I/O error while draining the response body.
    BodyRead,
    /// An external visited-set backing was unreachable.
    DedupStore,
}

/// What the caller is to do next: fetch one URL, or stop — the crawl is over.
pub enum Action {
    /// Fetch this URL and hand the outcome to `on_fetch_complete`.
    Fetch(Url),
    /// The frontier is exhausted or the budget spent; pulling again is a no-op.
    Finished,
}

/// The model of an `Action`.
pub ghost enum ActionView {
    Fetch(UrlView),
    Finished,
}

impl View for Action {
    type V = ActionView;

    closed spec fn view(&self) -> ActionView {
        match self {
            Action::Fetch(u) => ActionView::Fetch(u@),
            Action::Finished => ActionView::Finished,
        }
    }
}

/// What one completed pull yields: the visited URL with its parsed document,
/// or the visited URL with the failure that ended its fetch.
pub enum PullOutcome {
    Page(Url, select::document::Document),
    Failed(Url, FetchError),
}

/// The crawl's phase: between pulls, mid-fetch, or over.
pub ghost enum StateView {
    Idle,
    Fetching(UrlView),
    Done,
}

/// The mathematical model of a crawler.
pub ghost struct CrawlView {
    /// Pending URLs; the last is popped first (depth-first bias).
    pub frontier: Seq<UrlView>,
    /// The texts of the URLs already claimed.
    pub visited: Set<Seq<u8>>,
    /// When set, only URLs with exactly this host are fetched.
    pub host: Option<Seq<u8>>,
    /// When set, the ceiling on fetch attempts.
    pub limit: Option<u64>,
    /// Fetch attempts begun so far.
    pub used: u64,
    /// The crawl's phase.
    pub state: StateView,
    /// Outcomes (pages and failures) yielded so far.
    pub emitted: nat,
}

/// Whether a candidate passes the host filter.
pub open spec fn host_ok(u: UrlView, host: Option<Seq<u8>>) -> bool {
    match host {
        Option::None => true,
        Option::Some(h) => u.host == h,
    }
}

/// One search through the frontier, popping from the back: candidates that
/// fail the host filter are dropped without being claimed, candidates already
/// visited are dropped, and the first survivor is claimed and picked.
pub open spec fn step_spec(
    frontier: Seq<UrlView>,
    visited: Set<Seq<u8>>,
    host: Option<Seq<u8>>,
) -> (Seq<UrlView>, Set<Seq<u8>>, Option<UrlView>)
    decreases frontier.len(),
{
    if frontier.len() == 0 {
        (frontier, visited, None)
    } else {
        let u = frontier.last();
        let rest = frontier.drop_last();
        if !host_ok(u, host) {
            step_spec(rest, visited, host)
        } else if visited.contains(text_of(u)) {
            step_spec(rest, visited, host)
        } else {
            (rest, visited.insert(text_of(u)), Some(u))
        }
    }
}

/// Whether no further fetch may be issued: the configured ceiling is reached
/// (or the attempt counter itself can grow no further).
pub open spec fn budget_spent(c: CrawlView) -> bool {
    c.used == u64::MAX || match c.limit {
        Option::Some(n) => c.used >= n,
        Option::None => false,
    }
}

/// One pull while no fetch is outstanding: a finished crawl stays finished; a
/// spent budget finishes the crawl as if the frontier were empty; otherwise
/// the frontier is searched, and either a survivor starts fetching — one more
/// attempt used — or the crawl is over.
pub open spec fn poll_spec(c: CrawlView) -> (CrawlView, ActionView) {
    if c.state is Done {
        (c, ActionView::Finished)
    } else if budget_spent(c) {
        (CrawlView { state: StateView::Done, ..c }, ActionView::Finished)
    } else {
        let (f, v, pick) = step_spec(c.frontier, c.visited, c.host);
        match pick {
            Option::None => (
                CrawlView { frontier: f, visited: v, state: StateView::Done, ..c },
                ActionView::Finished,
            ),
            Option::Some(u) => (
                CrawlView {
                    frontier: f,
                    visited: v,
                    used: (c.used + 1) as u64,
                    state: StateView::Fetching(u),
                    ..c
                },
                ActionView::Fetch(u),
            ),
        }
    }
}

/// The crawler's invariant over its model: every URL it holds is well-formed,
/// and it has never yielded more outcomes than it has begun fetch attempts.
pub open spec fn inv(c: CrawlView) -> bool {
    &&& forall|i: int| 0 <= i < c.frontier.len() ==> (#[trigger] c.frontier[i]).wf()
    &&& (match c.state {
        StateView::Fetching(u) => u.wf(),
        _ => true,
    })
    &&& c.emitted + (if c.state is Fetching {
        1int
    } else {
        0int
    }) <= c.used
}

/// The crawler. One is built around a seed URL; the caller then alternates
/// `next_action` and — for each `Action::Fetch` — one fetch of its own
/// followed by `on_fetch_complete`.
pub struct Crawler<S: ClaimSet> {
    visitor: Visitor<S>,
    to_visit: Vec<Url>,
    host: Option<Vec<u8>>,
    limit: Option<u64>,
    used: u64,
    fetching: Option<Url>,
    done: bool,
    emitted: Ghost<nat>,
}

impl<S: ClaimSet> View for Crawler<S> {
    type V = CrawlView;

    closed spec fn view(&self) -> CrawlView {
        CrawlView {
            frontier: views_of(self.to_visit@),
            visited: self.visitor.keys(),
            host: match self.host {
                Option::Some(h) => Option::Some(h@),
                Option::None => Option::None,
            },
            limit: self.limit,
            used: self.used,
            state: if self.done {
                StateView::Done
            } else {
                match self.fetching {
                    Option::Some(u) => StateView::Fetching(u@),
                    Option::None => StateView::Idle,
                }
            },
            emitted: self.emitted@,
        }
    }
}

impl<S: ClaimSet> Crawler<S> {
    /// Well-formedness; constructors establish it, methods keep it.
    pub closed spec fn wf(&self) -> bool {
        &&& inv(self@)
        &&& (self.done ==> self.fetching is None)
    }

    /// A crawler over the given visited-set backing, with `seed` pending,
    /// no host filter and no visit budget.
    pub fn with_store(seed: Url, store: S) -> (c: Self)
        requires
            seed.wf(),
        ensures
            c.wf(),
            c@ == (CrawlView {
                frontier: seq![seed@],
                visited: store.keys(),
                host: Option::None,
                limit: Option::None,
                used: 0,
                state: StateView::Idle,
                emitted: 0,
            }),
    {
        let mut to_visit: Vec<Url> = Vec::new();
        to_visit.push(seed);
        let c = Crawler {
            visitor: Visitor::with_store(store),
            to_visit,
            host: None,
            limit: None,
            used: 0,
            fetching: None,
            done: false,
            emitted: Ghost(0),
        };
        proof {
            assert(views_of(c.to_visit@) =~= seq![c.to_visit@[0]@]);
        }
        c
    }

    /// Restrict the crawl to URLs whose host is exactly `host`; candidates
    /// with any other host are dropped without being claimed or retried.
    /// Returns the previous restriction, if there was one.
    pub fn limit_host(&mut self, host: Vec<u8>) -> (prev: Option<Vec<u8>>)
        requires
            old(self).wf(),
        ensures
            final(self).wf(),
            final(self)@ == (CrawlView { host: Option::Some(host@), ..old(self)@ }),
            match (prev, old(self)@.host) {
                (Option::Some(p), Option::Some(h)) => p@ == h,
                (Option::None, Option::None) => true,
                _ => false,
            },
    {
        let prev = self.host.take();
        self.host = Some(host);
        prev
    }

    /// Cap the number of fetch attempts at `n`; once `n` attempts have begun,
    /// the crawl finishes even while candidates remain. Returns the previous
    /// cap, if there was one. Left uncapped, a crawl stops only when its
    /// frontier empties, which on the open web may be never: capping is wise.
    pub fn limit_visits(&mut self, n: u64) -> (prev: Option<u64>)
        requires
            old(self).wf(),
        ensures
            final(self).wf(),
            final(self)@ == (CrawlView { limit: Option::Some(n), ..old(self)@ }),
            prev == old(self)@.limit,
    {
        let prev = self.limit.take();
        self.limit = Some(n);
        prev
    }

    /// One pull: what the caller is to do next, per `poll_spec`. May only be
    /// asked while no fetch is outstanding.
    #[verifier::loop_isolation(false)]
    pub fn next_action(&mut self) -> (a: Action)
        requires
            old(self).wf(),
            !(old(self)@.state is Fetching),
        ensures
            final(self).wf(),
            (final(self)@, a@) == poll_spec(old(self)@),
    {
        if self.done {
            return Action::Finished;
        }
        let spent = self.used == u64::MAX || match self.limit {
            Some(n) => self.used >= n,
            None => false,
        };
        if spent {
            self.done = true;
            proof {
                assert(forall|i: int|
                    0 <= i < old(self)@.frontier.len() ==> (#[trigger] old(
                        self,
                    )@.frontier[i]).wf());
            }
            return Action::Finished;
        }
        let ghost c0 = self@;
        loop
            invariant
                self.wf(),
                !self.done,
                self.fetching is None,
                self@.host == c0.host,
                self@.limit == c0.limit,
                self@.used == c0.used,
                self@.emitted == c0.emitted,
                step_spec(self@.frontier, self@.visited, c0.host) == step_spec(
                    c0.frontier,
                    c0.visited,
                    c0.host,
                ),
            decreases self.to_visit@.len(),
        {
            let ghost before = self@;
            match self.to_visit.pop() {
                None => {
                    proof {
                        assert(before.frontier =~= Seq::<UrlView>::empty());
                    }
                    self.done = true;
                    proof {
                        assert(self@ == poll_spec(c0).0);
                    }
                    return Action::Finished;
                },
                Some(u) => {
                    proof {
                        assert(before.frontier.last() == u@);
                        assert(views_of(self.to_visit@) =~= before.frontier.drop_last());
                        assert(before.frontier[before.frontier.len() - 1].wf());
                    }
                    let pass = match &self.host {
                        Some(h) => bytes_eq(u.host_ref().as_slice(), h.as_slice()),
                        None => true,
                    };
                    if pass {
                        let fresh = self.visitor.begin_visit(&u);
                        if fresh {
                            proof {
                                assert(step_spec(before.frontier, before.visited, c0.host) == (
                                    before.frontier.drop_last(),
                                    before.visited.insert(text_of(u@)),
                                    Option::Some(u@),
                                ));
                            }
                            self.used = self.used + 1;
                            self.fetching = Some(u.dup());
                            proof {
                                assert(self@ == poll_spec(c0).0);
                            }
                            return Action::Fetch(u);
                        }
                        proof {
                            assert(before.visited.contains(text_of(u@)));
                            assert(step_spec(before.frontier, before.visited, c0.host)
                                == step_spec(self@.frontier, self@.visited, c0.host));
                        }
                    } else {
                        proof {
                            assert(!host_ok(u@, c0.host));
                            assert(step_spec(before.frontier, before.visited, c0.host)
                                == step_spec(self@.frontier, self@.visited, c0.host));
                        }
                    }
                },
            }
        }
    }

    /// Fold the outcome of the outstanding fetch back in. A successful body
    /// yields the page and pushes its discovered links onto the frontier in
    /// document order, so the most recently discovered is fetched next; a
    /// failure yields the failure and the crawl goes on — the URL stays
    /// claimed either way, so it is never retried.
    pub fn on_fetch_complete(&mut self, outcome: Result<&[u8], FetchError>) -> (r: PullOutcome)
        requires
            old(self).wf(),
            old(self)@.state is Fetching,
        ensures
            final(self).wf(),
            final(self)@.visited == old(self)@.visited,
            final(self)@.host == old(self)@.host,
            final(self)@.limit == old(self)@.limit,
            final(self)@.used == old(self)@.used,
            final(self)@.state is Idle,
            final(self)@.emitted == old(self)@.emitted + 1,
            ({
                let u = old(self)@.state->Fetching_0;
                match outcome {
                    Ok(body) => {
                        &&& final(self)@.frontier == old(self)@.frontier + links_of(
                            u,
                            hrefs_of(body@),
                        )
                        &&& (r matches PullOutcome::Page(ru, _) && ru@ == u)
                    },
                    Err(e) => {
                        &&& final(self)@.frontier == old(self)@.frontier
                        &&& (r matches PullOutcome::Failed(ru, re) && ru@ == u && re == e)
                    },
                }
            }),
    {
        let u = self.fetching.take().unwrap();
        self.emitted = Ghost(self.emitted@ + 1);
        proof {
            assert(forall|i: int|
                0 <= i < old(self)@.frontier.len() ==> (#[trigger] old(self)@.frontier[i]).wf());
        }
        match outcome {
            Ok(body) => {
                let (doc, mut links) = self.visitor.finish_visit(&u, body);
                let ghost fr = self@.frontier;
                let ghost lv = links@;
                self.to_visit.append(&mut links);
                proof {
                    assert(views_of(self.to_visit@) =~= fr + views_of(lv));
                    assert(views_of(lv) == links_of(u@, hrefs_of(body@)));
                    assert forall|i: int| 0 <= i < self@.frontier.len() implies (
                    #[trigger] self@.frontier[i]).wf() by {
                        if i < fr.len() {
                            assert(old(self)@.frontier[i].wf());
                        } else {
                            assert(lv[i - fr.len()].wf());
                            assert(self@.frontier[i] == lv[i - fr.len()]@);
                        }
                    }
                }
                PullOutcome::Page(u, doc)
            },
            Err(e) => PullOutcome::Failed(u, e),
        }
    }
}

impl Crawler<MemorySet> {
    /// A crawler over a fresh in-process visited set, with `seed` pending.
    pub fn new(seed: Url) -> (c: Self)
        requires
            seed.wf(),
        ensures
            c.wf(),
            c@ == (CrawlView {
                frontier: seq![seed@],
                visited: Set::<Seq<u8>>::empty(),
                host: Option::None,
                limit: Option::None,
                used: 0,
                state: StateView::Idle,
                emitted: 0,
            }),
    {
        Crawler::with_store(seed, MemorySet::new())
    }
}

/// Host filtering: when a filter is set, whatever the frontier holds, a search
/// through it only ever picks — and so the crawl only ever fetches and yields —
/// a URL with exactly the filtered host.
pub proof fn lemma_host_filter(frontier: Seq<UrlView>, visited: Set<Seq<u8>>, h: Seq<u8>)
    ensures
        match step_spec(frontier, visited, Option::Some(h)).2 {
            Option::Some(u) => u.host == h,
            Option::None => true,
        },
    decreases frontier.len(),
{
    if frontier.len() > 0 {
        lemma_host_filter(frontier.drop_last(), visited, h);
    }
}

/// Visit budget, first half: once the attempt counter has reached the
/// ceiling, a pull finishes the crawl and begins no further fetch.
pub proof fn lemma_budget_spent(c: CrawlView, n: u64)
    requires
        c.limit == Option::<u64>::Some(n),
        c.used >= n,
    ensures
        poll_spec(c).1 is Finished,
        poll_spec(c).0.used == c.used,
{
}

/// Visit budget, second half: under a ceiling the counter never passes it,
/// and — by the invariant — the outcomes yielded never outnumber the attempts
/// begun; so with budget `n` a crawl yields at most `n` pages and failures.
pub proof fn lemma_budget_bound(c: CrawlView, n: u64)
    requires
        inv(c),
        c.limit == Option::<u64>::Some(n),
        c.used <= n,
    ensures
        poll_spec(c).0.used <= n,
        c.emitted <= c.used,
{
}

/// Depth-first order: a page's links are pushed in document order, so of two
/// fresh links `a` then `b` discovered together, `b` is picked first, and `a`
/// right after it — last in, first out.
pub proof fn lemma_depth_first(
    f: Seq<UrlView>,
    visited: Set<Seq<u8>>,
    host: Option<Seq<u8>>,
    a: UrlView,
    b: UrlView,
)
    requires
        host_ok(a, host),
        host_ok(b, host),
        !visited.contains(text_of(a)),
        !visited.contains(text_of(b)),
        text_of(a) != text_of(b),
    ensures
        step_spec(f + seq![a, b], visited, host) == (
            f + seq![a],
            visited.insert(text_of(b)),
            Option::Some(b),
        ),
        step_spec(f + seq![a], visited.insert(text_of(b)), host).2 == Option::Some(a),
{
    let fab = f + seq![a, b];
    let fa = f + seq![a];
    assert(fab.last() == b);
    assert(fab.drop_last() =~= fa);
    assert(fa.last() == a);
}

} // verus!
