//! URLs, modelled as their byte text split into scheme, host and path, and the
//! best-effort resolution of a possibly-relative link against a base URL.
//!
//! The grammar is deliberately small: an absolute URL is `scheme "://" host path`
//! where the scheme runs up to the first `':'` or `'/'`, the host runs up to the
//! next `'/'`, and the path is the rest (so queries and fragments other than a
//! bare `"#"` ride along inside the path; a known limitation, not a bug).

use vstd::prelude::*;
use vstd::slice::slice_subrange;
use vstd::slice::slice_to_vec;

verus! {

/// The byte `':'`.
pub const COLON: u8 = 58;

/// The byte `'/'`.
pub const SLASH: u8 = 47;

/// The byte `'#'`.
pub const FRAGMENT: u8 = 35;

/// The mathematical model of a URL: the three byte sequences whose
/// concatenation (with `"://"` in between) is the URL's text.
pub ghost struct UrlView {
    pub scheme: Seq<u8>,
    pub host: Seq<u8>,
    pub path: Seq<u8>,
}

impl UrlView {
    /// Well-formedness: a nonempty scheme free of `':'` and `'/'`, a nonempty
    /// host free of `'/'`, and a path that is empty or starts with `'/'`.
    pub open spec fn wf(self) -> bool {
        &&& self.scheme.len() > 0
        &&& forall|k: int|
            0 <= k < self.scheme.len() ==> #[trigger] self.scheme[k] != COLON && self.scheme[k]
                != SLASH
        &&& self.host.len() > 0
        &&& forall|k: int| 0 <= k < self.host.len() ==> #[trigger] self.host[k] != SLASH
        &&& (self.path.len() == 0 || self.path[0] == SLASH)
    }
}

/// The text a URL denotes: `scheme "://" host path`.
pub open spec fn text_of(u: UrlView) -> Seq<u8> {
    u.scheme + seq![COLON, SLASH, SLASH] + u.host + u.path
}

/// The position of the `':'` of the first `"://"` in `s` at or after `k`,
/// provided no `':'` or `'/'` comes before it: the end of an absolute URL's
/// scheme. `None` when `s` does not start with a scheme.
pub open spec fn scheme_end(s: Seq<u8>, k: int) -> Option<int>
    decreases s.len() - k,
{
    if !(0 <= k < s.len()) {
        None
    } else if s[k] == SLASH {
        None
    } else if s[k] == COLON {
        if k + 2 < s.len() && s[k + 1] == SLASH && s[k + 2] == SLASH {
            Some(k)
        } else {
            None
        }
    } else {
        scheme_end(s, k + 1)
    }
}

/// The position of the first `'/'` in `s` at or after `k`, or `s.len()` when
/// there is none: the end of an absolute URL's host.
pub open spec fn slash_pos(s: Seq<u8>, k: int) -> int
    decreases s.len() - k,
{
    if !(0 <= k < s.len()) {
        s.len() as int
    } else if s[k] == SLASH {
        k
    } else {
        slash_pos(s, k + 1)
    }
}

/// Parsing a byte string as an absolute URL: split at the first `"://"` and at
/// the first `'/'` after it; fail on an empty scheme or an empty host.
pub open spec fn parse_spec(s: Seq<u8>) -> Option<UrlView> {
    match scheme_end(s, 0) {
        None => None,
        Some(i) => {
            if i == 0 {
                None
            } else {
                let j = slash_pos(s, i + 3);
                if j == i + 3 {
                    None
                } else {
                    Some(
                        UrlView {
                            scheme: s.subrange(0, i),
                            host: s.subrange(i + 3, j),
                            path: s.subrange(j, s.len() as int),
                        },
                    )
                }
            }
        },
    }
}

/// Resolution of a possibly-relative `candidate` against `base`:
/// an absolute candidate is returned as it stands; a protocol-relative one
/// (`"//..."`) borrows the base's scheme; a bare `"#"` resolves to nothing;
/// anything else is taken as a path under the base's scheme and host. A
/// synthesized text that fails to parse resolves to nothing.
pub open spec fn resolve_spec(base: UrlView, c: Seq<u8>) -> Option<UrlView> {
    if parse_spec(c) is Some {
        parse_spec(c)
    } else if c.len() >= 2 && c[0] == SLASH && c[1] == SLASH {
        parse_spec(base.scheme + seq![COLON] + c)
    } else if c == seq![FRAGMENT] {
        None
    } else {
        parse_spec(base.scheme + seq![COLON, SLASH, SLASH] + base.host + c)
    }
}

proof fn lemma_scheme_end_props(s: Seq<u8>, k: int)
    requires
        scheme_end(s, k) is Some,
    ensures
        ({
            let i = scheme_end(s, k).unwrap();
            &&& k <= i < s.len()
            &&& i + 2 < s.len()
            &&& s[i] == COLON
            &&& s[i + 1] == SLASH
            &&& s[i + 2] == SLASH
            &&& forall|m: int| k <= m < i ==> #[trigger] s[m] != COLON && s[m] != SLASH
        }),
    decreases s.len() - k,
{
    if 0 <= k < s.len() && s[k] != SLASH && s[k] != COLON {
        lemma_scheme_end_props(s, k + 1);
    }
}

proof fn lemma_slash_pos_props(s: Seq<u8>, k: int)
    requires
        0 <= k <= s.len(),
    ensures
        ({
            let j = slash_pos(s, k);
            &&& k <= j <= s.len()
            &&& forall|m: int| k <= m < j ==> #[trigger] s[m] != SLASH
            &&& (j < s.len() ==> s[j] == SLASH)
        }),
    decreases s.len() - k,
{
    if k < s.len() && s[k] != SLASH {
        lemma_slash_pos_props(s, k + 1);
    }
}

/// What a successful parse yields: a well-formed URL whose text is exactly the
/// input. In particular an absolute URL survives a parse unchanged.
pub proof fn lemma_parse_props(s: Seq<u8>)
    requires
        parse_spec(s) is Some,
    ensures
        parse_spec(s).unwrap().wf(),
        text_of(parse_spec(s).unwrap()) == s,
{
    let i = scheme_end(s, 0).unwrap();
    lemma_scheme_end_props(s, 0);
    lemma_slash_pos_props(s, i + 3);
    let j = slash_pos(s, i + 3);
    let u = parse_spec(s).unwrap();
    assert forall|m: int| 0 <= m < s.len() implies text_of(u)[m] == s[m] by {
        if m < i {
            assert(text_of(u)[m] == u.scheme[m]);
        } else if m < i + 3 {
            assert(text_of(u)[m] == seq![COLON, SLASH, SLASH][m - i]);
        } else if m < j {
            assert(text_of(u)[m] == u.host[m - (i + 3)]);
        } else {
            assert(text_of(u)[m] == u.path[m - j]);
        }
    }
    assert(text_of(u) =~= s);
}

/// An executable URL: the three components of its text, held as plain bytes.
pub struct Url {
    scheme: Vec<u8>,
    host: Vec<u8>,
    path: Vec<u8>,
}

impl View for Url {
    type V = UrlView;

    closed spec fn view(&self) -> UrlView {
        UrlView { scheme: self.scheme@, host: self.host@, path: self.path@ }
    }
}

fn find_scheme_end(s: &[u8], k: usize) -> (r: Option<usize>)
    requires
        k <= s@.len(),
    ensures
        match r {
            Some(i) => scheme_end(s@, k as int) == Some(i as int) && k <= i && i + 2 < s@.len(),
            None => scheme_end(s@, k as int) is None,
        },
    decreases s@.len() - k,
{
    if k == s.len() {
        None
    } else if s[k] == SLASH {
        None
    } else if s[k] == COLON {
        if s.len() - k > 2 && s[k + 1] == SLASH && s[k + 2] == SLASH {
            Some(k)
        } else {
            None
        }
    } else {
        find_scheme_end(s, k + 1)
    }
}

fn find_slash(s: &[u8], k: usize) -> (r: usize)
    requires
        k <= s@.len(),
    ensures
        r as int == slash_pos(s@, k as int),
        k <= r <= s@.len(),
    decreases s@.len() - k,
{
    if k == s.len() {
        k
    } else if s[k] == SLASH {
        k
    } else {
        find_slash(s, k + 1)
    }
}

impl Url {
    /// Well-formedness of the components; constructors establish it and every
    /// URL the crate hands out satisfies it.
    pub open spec fn wf(&self) -> bool {
        self@.wf()
    }

    /// Parse a byte string as an absolute URL.
    pub fn parse(s: &[u8]) -> (r: Option<Url>)
        ensures
            match r {
                Some(u) => u.wf() && parse_spec(s@) == Some(u@) && text_of(u@) == s@,
                None => parse_spec(s@) is None,
            },
    {
        match find_scheme_end(s, 0) {
            None => None,
            Some(i) => {
                if i == 0 {
                    None
                } else {
                    let n = s.len();
                    let rest = i + 3;
                    let j = find_slash(s, rest);
                    if j == rest {
                        None
                    } else {
                        let u = Url {
                            scheme: slice_to_vec(slice_subrange(s, 0, i)),
                            host: slice_to_vec(slice_subrange(s, rest, j)),
                            path: slice_to_vec(slice_subrange(s, j, n)),
                        };
                        proof {
                            lemma_parse_props(s@);
                        }
                        Some(u)
                    }
                }
            },
        }
    }

    /// The URL's text, `scheme "://" host path`.
    pub fn text(&self) -> (t: Vec<u8>)
        ensures
            t@ == text_of(self@),
    {
        let mut t = slice_to_vec(self.scheme.as_slice());
        t.push(COLON);
        t.push(SLASH);
        t.push(SLASH);
        let mut h = slice_to_vec(self.host.as_slice());
        t.append(&mut h);
        let mut p = slice_to_vec(self.path.as_slice());
        t.append(&mut p);
        proof {
            assert(t@ =~= text_of(self@));
        }
        t
    }

    /// The host component.
    pub fn host_ref(&self) -> (h: &Vec<u8>)
        ensures
            h@ == self@.host,
    {
        &self.host
    }

    /// The scheme component.
    pub fn scheme_ref(&self) -> (h: &Vec<u8>)
        ensures
            h@ == self@.scheme,
    {
        &self.scheme
    }

    /// The path component.
    pub fn path_ref(&self) -> (h: &Vec<u8>)
        ensures
            h@ == self@.path,
    {
        &self.path
    }

    /// An identical copy.
    pub fn dup(&self) -> (r: Url)
        ensures
            r@ == self@,
    {
        Url {
            scheme: slice_to_vec(self.scheme.as_slice()),
            host: slice_to_vec(self.host.as_slice()),
            path: slice_to_vec(self.path.as_slice()),
        }
    }
}

/// Whether two byte strings are equal.
pub(crate) fn bytes_eq(a: &[u8], b: &[u8]) -> (r: bool)
    ensures
        r == (a@ == b@),
{
    if a.len() != b.len() {
        return false;
    }
    let mut k: usize = 0;
    while k < a.len()
        invariant
            k <= a.len(),
            a@.len() == b@.len(),
            forall|m: int| 0 <= m < k ==> a@[m] == b@[m],
        decreases a.len() - k,
    {
        if a[k] != b[k] {
            return false;
        }
        k = k + 1;
    }
    proof {
        assert(a@ =~= b@);
    }
    true
}

/// Resolve a possibly-relative link against a base URL; see `resolve_spec` for
/// the exact rules.
pub fn resolve(base: &Url, candidate: &[u8]) -> (r: Option<Url>)
    ensures
        match r {
            Some(u) => u.wf() && resolve_spec(base@, candidate@) == Some(u@),
            None => resolve_spec(base@, candidate@) is None,
        },
{
    match Url::parse(candidate) {
        Some(u) => Some(u),
        None => {
            if candidate.len() >= 2 && candidate[0] == SLASH && candidate[1] == SLASH {
                let mut synth = slice_to_vec(base.scheme.as_slice());
                synth.push(COLON);
                let mut c = slice_to_vec(candidate);
                synth.append(&mut c);
                proof {
                    assert(synth@ =~= base@.scheme + seq![COLON] + candidate@);
                }
                Url::parse(synth.as_slice())
            } else if candidate.len() == 1 && candidate[0] == FRAGMENT {
                proof {
                    assert(candidate@ =~= seq![FRAGMENT]);
                }
                None
            } else {
                let mut synth = slice_to_vec(base.scheme.as_slice());
                synth.push(COLON);
                synth.push(SLASH);
                synth.push(SLASH);
                let mut h = slice_to_vec(base.host.as_slice());
                synth.append(&mut h);
                let mut c = slice_to_vec(candidate);
                synth.append(&mut c);
                proof {
                    assert(synth@ =~= base@.scheme + seq![COLON, SLASH, SLASH] + base@.host
                        + candidate@);
                    assert(candidate@ != seq![FRAGMENT]);
                }
                Url::parse(synth.as_slice())
            }
        },
    }
}

/// An absolute URL resolves to itself, unchanged, against any base.
pub proof fn lemma_resolve_absolute(base: UrlView, c: Seq<u8>)
    requires
        parse_spec(c) is Some,
    ensures
        resolve_spec(base, c) == parse_spec(c),
        text_of(resolve_spec(base, c).unwrap()) == c,
{
    lemma_parse_props(c);
}

/// A bare `"#"` resolves to nothing against every base.
pub proof fn lemma_resolve_fragment(base: UrlView)
    ensures
        resolve_spec(base, seq![FRAGMENT]) is None,
{
    let c: Seq<u8> = seq![FRAGMENT];
    assert(scheme_end(c, 0) == scheme_end(c, 1)) by {
        assert(c[0] == FRAGMENT);
    }
    assert(scheme_end(c, 1) is None);
    assert(parse_spec(c) is None);
}

} // verus!
