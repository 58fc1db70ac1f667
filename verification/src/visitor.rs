//! The visitor: the dedup guard that claims a URL before its fetch may begin,
//! and the turning of a fetched page into the links it discovers.

use vstd::prelude::*;
use crate::html::hrefs_of;
use crate::html::parse_page;
use crate::url::resolve;
use crate::url::resolve_spec;
use crate::url::text_of;
use crate::url::Url;
use crate::url::UrlView;
use crate::visited::claim_spec;
use crate::visited::ClaimSet;
use crate::visited::MemorySet;

verus! {

/// The views of a sequence of URLs.
pub open spec fn views_of(s: Seq<Url>) -> Seq<UrlView> {
    s.map_values(|u: Url| u@)
}

/// The links a page at `base` with link targets `hrefs` discovers: each target
/// resolved against `base`, in document order, the unresolvable ones dropped.
pub open spec fn links_of(base: UrlView, hrefs: Seq<Seq<u8>>) -> Seq<UrlView>
    decreases hrefs.len(),
{
    if hrefs.len() == 0 {
        Seq::empty()
    } else {
        links_of(base, hrefs.drop_last()) + match resolve_spec(base, hrefs.last()) {
            Some(u) => seq![u],
            None => Seq::empty(),
        }
    }
}

/// The visit bookkeeping around one fetch, over any claim-if-absent backing.
pub struct Visitor<S: ClaimSet> {
    store: S,
}

impl<S: ClaimSet> Visitor<S> {
    /// The URLs already claimed, keyed by their text.
    pub closed spec fn keys(&self) -> Set<Seq<u8>> {
        self.store.keys()
    }

    /// A visitor over the given backing store.
    pub fn with_store(store: S) -> (v: Self)
        ensures
            v.keys() == store.keys(),
    {
        Visitor { store }
    }

    /// The dedup guard: claim `url` before any fetch of it. For a URL already
    /// in the set this returns `false` and changes nothing, and the caller
    /// issues no fetch for it — no network traffic for a visited URL.
    pub fn begin_visit(&mut self, url: &Url) -> (fresh: bool)
        ensures
            (final(self).keys(), fresh) == claim_spec(old(self).keys(), text_of(url@)),
            !fresh ==> final(self).keys() == old(self).keys(),
    {
        let t = url.text();
        let fresh = self.store.claim(t);
        proof {
            if !fresh {
                assert(final(self).keys() =~= old(self).keys());
            }
        }
        fresh
    }

    /// Fold a fetched page into its discovered links: parse the body, resolve
    /// every anchor target against the page's own URL, and hand back the
    /// parsed document with the survivors in document order.
    pub fn finish_visit(&self, url: &Url, body: &[u8]) -> (r: (
        select::document::Document,
        Vec<Url>,
    ))
        ensures
            views_of(r.1@) == links_of(url@, hrefs_of(body@)),
            forall|i: int| 0 <= i < r.1@.len() ==> (#[trigger] r.1@[i]).wf(),
    {
        let (doc, hrefs) = parse_page(body);
        let ghost all = hrefs_of(body@);
        let mut links: Vec<Url> = Vec::new();
        let n = hrefs.len();
        let mut k: usize = 0;
        while k < n
            invariant
                k <= n,
                n == hrefs@.len(),
                hrefs.deep_view() == all,
                views_of(links@) == links_of(url@, all.take(k as int)),
                forall|i: int| 0 <= i < links@.len() ==> (#[trigger] links@[i]).wf(),
            decreases n - k,
        {
            let ghost prefix = all.take(k as int + 1);
            proof {
                assert(prefix.drop_last() =~= all.take(k as int));
                assert(prefix.last() == all[k as int]);
                assert(hrefs@[k as int]@ == all[k as int]);
            }
            match resolve(url, hrefs[k].as_slice()) {
                Some(u) => {
                    links.push(u);
                },
                None => {
                },
            }
            proof {
                assert(views_of(links@) =~= links_of(url@, all.take(k as int + 1)));
            }
            k = k + 1;
        }
        proof {
            assert(all.take(n as int) =~= all);
        }
        (doc, links)
    }
}

impl Visitor<MemorySet> {
    /// A visitor over a fresh in-process visited set.
    pub fn new() -> (v: Self)
        ensures
            v.keys() == Set::<Seq<u8>>::empty(),
    {
        Visitor { store: MemorySet::new() }
    }
}

} // verus!
