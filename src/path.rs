//! The resource of a request: a canonical path and the raw query after `?`.
use vstd::prelude::*;
use crate::text::{chars_of, copy_range, is_whitespace, is_ws, string_of, strip_ws, strip_ws_chars};

verus! {

/// One character of path normalisation. The state is the path built so far
/// (it always starts with `/`) and whether a `/` is waiting to be written
/// before the next segment.
pub open spec fn path_step(st: (Seq<char>, bool), c: char) -> (Seq<char>, bool) {
    if is_ws(c) {
        st
    } else if c == '/' {
        (st.0, true)
    } else if st.1 && st.0.len() > 1 {
        (st.0.push('/').push(c), false)
    } else {
        (st.0.push(c), false)
    }
}

pub open spec fn path_scan(s: Seq<char>) -> (Seq<char>, bool)
    decreases s.len(),
{
    if s.len() == 0 {
        (seq!['/'], false)
    } else {
        path_step(path_scan(s.drop_last()), s.last())
    }
}

/// The canonical form of a raw path: white space removed, runs of `/`
/// collapsed to one, a leading `/` and no trailing one (but for the root).
pub open spec fn normalize_path(s: Seq<char>) -> Seq<char> {
    path_scan(s).0
}

/// The form every canonical path has.
pub open spec fn is_normal_path(o: Seq<char>) -> bool {
    &&& o.len() >= 1
    &&& o[0] == '/'
    &&& forall|i: int| 0 <= i < o.len() ==> !is_ws(#[trigger] o[i])
    &&& forall|i: int| 0 <= i < o.len() - 1 ==> !(#[trigger] o[i] == '/' && o[i + 1] == '/')
    &&& (o.len() > 1 ==> o.last() != '/')
}

/// The query part's canonical form: its white space removed.
pub open spec fn normalize_query(q: Seq<char>) -> Seq<char> {
    strip_ws(q)
}

/// The index of the first `c` in `s` at or after `i`.
pub open spec fn find_from(s: Seq<char>, c: char, i: int) -> Option<int>
    decreases s.len() - i,
{
    if i < 0 || i >= s.len() {
        None
    } else if s[i] == c {
        Some(i)
    } else {
        find_from(s, c, i + 1)
    }
}

/// The raw path part of a resource: what stands before the first `?`.
pub open spec fn raw_path(s: Seq<char>) -> Seq<char> {
    match find_from(s, '?', 0) {
        Some(k) => s.subrange(0, k),
        None => s,
    }
}

/// The raw query part of a resource: what stands after the first `?`, if any.
pub open spec fn raw_query(s: Seq<char>) -> Option<Seq<char>> {
    match find_from(s, '?', 0) {
        Some(k) => Some(s.subrange(k + 1, s.len() as int)),
        None => None,
    }
}

#[derive(Debug, PartialEq)]
pub struct HttpPath {
    pub path: String,
    pub search_params: Option<String>,
}

pub open spec fn opt_view(o: Option<String>) -> Option<Seq<char>> {
    match o {
        Some(s) => Some(s@),
        None => None,
    }
}

pub open spec fn opt_normalize_query(o: Option<Seq<char>>) -> Option<Seq<char>> {
    match o {
        Some(q) => Some(normalize_query(q)),
        None => None,
    }
}

impl HttpPath {
    /// The path's text and the query's text, if there is a query.
    pub open spec fn model(&self) -> (Seq<char>, Option<Seq<char>>) {
        (self.path@, opt_view(self.search_params))
    }

    /// Brings both parts to canonical form: the path by `normalize_path`, the
    /// query by removing its white space.
    pub fn fix(&mut self)
        ensures
            final(self).path@ == normalize_path(old(self).path@),
            opt_view(final(self).search_params) == opt_normalize_query(
                opt_view(old(self).search_params),
            ),
    {
        let raw = chars_of(self.path.as_str());
        let path = normalize_path_chars(&raw);
        self.path = string_of(&path);
        let params = match &self.search_params {
            Some(p) => {
                let q = chars_of(p.as_str());
                let q = strip_ws_chars(&q);
                Some(string_of(&q))
            },
            None => None,
        };
        self.search_params = params;
    }

    /// Splits a raw resource at its first `?` and brings both parts to
    /// canonical form.
    pub fn from_resource(value: &str) -> (r: HttpPath)
        ensures
            r.path@ == normalize_path(raw_path(value@)),
            opt_view(r.search_params) == opt_normalize_query(raw_query(value@)),
    {
        let chars = chars_of(value);
        HttpPath::from_chars(&chars)
    }

    pub fn from_chars(chars: &Vec<char>) -> (r: HttpPath)
        ensures
            r.path@ == normalize_path(raw_path(chars@)),
            opt_view(r.search_params) == opt_normalize_query(raw_query(chars@)),
    {
        let n = chars.len();
        let mut k: usize = 0;
        while k < n && chars[k] != '?'
            invariant
                n == chars@.len(),
                k <= n,
                find_from(chars@, '?', 0) == find_from(chars@, '?', k as int),
            decreases n - k,
        {
            k = k + 1;
        }
        let mut result = if k < n {
            let p = copy_range(chars, 0, k);
            let q = copy_range(chars, k + 1, n);
            HttpPath { path: string_of(&p), search_params: Some(string_of(&q)) }
        } else {
            assert(chars@.subrange(0, n as int) =~= chars@);
            HttpPath { path: string_of(chars), search_params: None }
        };
        result.fix();
        result
    }
}

/// The same as `HttpPath::from_resource`, whose contract states the result.
impl From<&str> for HttpPath {
    fn from(value: &str) -> HttpPath {
        HttpPath::from_resource(value)
    }
}

impl vstd::std_specs::convert::FromSpecImpl<&str> for HttpPath {
    open spec fn obeys_from_spec() -> bool {
        false
    }

    open spec fn from_spec(v: &str) -> HttpPath {
        choose|p: HttpPath| p.path@ == normalize_path(raw_path(v@))
    }
}

/// The same as `HttpPath::from_resource`, whose contract states the result.
impl From<String> for HttpPath {
    fn from(value: String) -> HttpPath {
        HttpPath::from_resource(value.as_str())
    }
}

impl vstd::std_specs::convert::FromSpecImpl<String> for HttpPath {
    open spec fn obeys_from_spec() -> bool {
        false
    }

    open spec fn from_spec(v: String) -> HttpPath {
        choose|p: HttpPath| p.path@ == normalize_path(raw_path(v@))
    }
}

/// The canonical form of a raw path, as `normalize_path` states it.
pub fn normalize_path_chars(s: &Vec<char>) -> (r: Vec<char>)
    ensures
        r@ == normalize_path(s@),
{
    let mut out: Vec<char> = vec!['/'];
    let mut pending = false;
    let mut i: usize = 0;
    assert(s@.subrange(0, 0) =~= Seq::<char>::empty());
    while i < s.len()
        invariant
            0 <= i <= s@.len(),
            (out@, pending) == path_scan(s@.subrange(0, i as int)),
        decreases s@.len() - i,
    {
        assert(s@.subrange(0, i + 1).drop_last() =~= s@.subrange(0, i as int));
        let c = s[i];
        if is_whitespace(c) {
        } else if c == '/' {
            pending = true;
        } else {
            if pending && out.len() > 1 {
                out.push('/');
            }
            out.push(c);
            pending = false;
        }
        i = i + 1;
    }
    assert(s@.subrange(0, s@.len() as int) =~= s@);
    out
}

/// Every path that normalisation yields is in canonical form.
pub proof fn lemma_scan_normal(s: Seq<char>)
    ensures
        is_normal_path(path_scan(s).0),
    decreases s.len(),
{
    if s.len() > 0 {
        lemma_scan_normal(s.drop_last());
        let o = path_scan(s.drop_last()).0;
        let n = path_scan(s).0;
        assert(forall|i: int| 0 <= i < o.len() ==> n[i] == o[i]);
    }
}

/// How normalisation reads the first `i` characters of a canonical path.
proof fn lemma_normal_prefix(o: Seq<char>, i: int)
    requires
        is_normal_path(o),
        1 <= i <= o.len(),
    ensures
        path_scan(o.subrange(0, i)) == (if o[i - 1] == '/' {
            if i == 1 {
                seq!['/']
            } else {
                o.subrange(0, i - 1)
            }
        } else {
            o.subrange(0, i)
        }, o[i - 1] == '/'),
    decreases i,
{
    assert(o.subrange(0, i).drop_last() =~= o.subrange(0, i - 1));
    assert(o.subrange(0, i).last() == o[i - 1]);
    assert(path_scan(o.subrange(0, i)) == path_step(path_scan(o.subrange(0, i - 1)), o[i - 1]));
    if i == 1 {
        assert(o.subrange(0, 0) =~= Seq::<char>::empty());
    } else {
        lemma_normal_prefix(o, i - 1);
        let j = i - 1;
        let c = o[j];
        assert(!is_ws(c));
        if c == '/' {
            assert(!(o[j - 1] == '/' && o[j] == '/'));
        } else if o[j - 1] == '/' {
            if j == 1 {
                assert(o.subrange(0, 2) =~= seq!['/', c]);
            } else {
                if j == 2 {
                    assert(!(o[0] == '/' && o[1] == '/'));
                }
                assert(o.subrange(0, j - 1).push('/').push(c) =~= o.subrange(0, j + 1));
            }
        } else {
            assert(o.subrange(0, j).push(c) =~= o.subrange(0, j + 1));
        }
    }
}

/// Normalisation keeps a path that is in canonical form as it is.
pub proof fn lemma_normal_fixed(o: Seq<char>)
    requires
        is_normal_path(o),
    ensures
        normalize_path(o) == o,
{
    lemma_normal_prefix(o, o.len() as int);
    assert(o.subrange(0, o.len() as int) =~= o);
    if o.last() == '/' {
        assert(o =~= seq!['/']);
    }
}

/// Removing white space a second time changes nothing.
pub proof fn lemma_strip_ws_idempotent(q: Seq<char>)
    ensures
        strip_ws(strip_ws(q)) == strip_ws(q),
    decreases q.len(),
{
    if q.len() > 0 {
        lemma_strip_ws_idempotent(q.drop_last());
        let t = strip_ws(q.drop_last());
        if !is_ws(q.last()) {
            assert(t.push(q.last()).drop_last() =~= t);
        }
    }
}

/// Normalising a resource twice gives what normalising it once gives, for the
/// path and for the query alike.
pub proof fn lemma_normalize_idempotent(path: Seq<char>, query: Option<Seq<char>>)
    ensures
        normalize_path(normalize_path(path)) == normalize_path(path),
        opt_normalize_query(opt_normalize_query(query)) == opt_normalize_query(query),
{
    lemma_scan_normal(path);
    lemma_normal_fixed(normalize_path(path));
    if let Some(q) = query {
        lemma_strip_ws_idempotent(q);
    }
}

proof fn lemma_find_facts(s: Seq<char>, c: char, i: int)
    requires
        0 <= i,
    ensures
        find_from(s, c, i) matches Some(k) ==> i <= k < s.len() && s[k] == c && forall|j: int|
            i <= j < k ==> s[j] != c,
        find_from(s, c, i) is None ==> forall|j: int| i <= j < s.len() ==> s[j] != c,
    decreases s.len() - i,
{
    if i < s.len() && s[i] != c {
        lemma_find_facts(s, c, i + 1);
    }
}

proof fn lemma_find_at(s: Seq<char>, c: char, i: int, k: int)
    requires
        0 <= i <= k < s.len(),
        s[k] == c,
        forall|j: int| i <= j < k ==> s[j] != c,
    ensures
        find_from(s, c, i) == Some(k),
    decreases k - i,
{
    if i < k {
        lemma_find_at(s, c, i + 1, k);
    }
}

proof fn lemma_find_none(s: Seq<char>, c: char, i: int)
    requires
        0 <= i,
        forall|j: int| i <= j < s.len() ==> s[j] != c,
    ensures
        find_from(s, c, i) is None,
    decreases s.len() - i,
{
    if i < s.len() {
        lemma_find_none(s, c, i + 1);
    }
}

/// Normalisation brings in no character but `/`.
proof fn lemma_scan_keeps_out(x: Seq<char>, c: char)
    requires
        c != '/',
        forall|j: int| 0 <= j < x.len() ==> x[j] != c,
    ensures
        forall|j: int| 0 <= j < path_scan(x).0.len() ==> path_scan(x).0[j] != c,
    decreases x.len(),
{
    if x.len() > 0 {
        lemma_scan_keeps_out(x.drop_last(), c);
        let o = path_scan(x.drop_last()).0;
        let n = path_scan(x).0;
        assert(forall|j: int| 0 <= j < o.len() ==> n[j] == o[j]);
        assert(x.last() == x[x.len() - 1]);
    }
}

/// The text of a resource in canonical form: its path, then `?` and its
/// query if it has one.
pub open spec fn resource_text(path: Seq<char>, query: Option<Seq<char>>) -> Seq<char> {
    match query {
        Some(q) => path + seq!['?'] + q,
        None => path,
    }
}

/// Normalising a resource that is already in canonical form changes nothing:
/// writing out what `HttpPath::from_resource` gives and reading it again
/// yields the same path and query.
pub proof fn lemma_resource_round_trip(s: Seq<char>)
    ensures
        ({
            let p = normalize_path(raw_path(s));
            let q = opt_normalize_query(raw_query(s));
            let r = resource_text(p, q);
            normalize_path(raw_path(r)) == p && opt_normalize_query(raw_query(r)) == q
        }),
{
    let p = normalize_path(raw_path(s));
    let q = opt_normalize_query(raw_query(s));
    let r = resource_text(p, q);
    lemma_find_facts(s, '?', 0);
    assert forall|j: int| 0 <= j < raw_path(s).len() implies raw_path(s)[j] != '?' by {}
    lemma_scan_keeps_out(raw_path(s), '?');
    lemma_normalize_idempotent(raw_path(s), raw_query(s));
    match q {
        Some(x) => {
            assert(r[p.len() as int] == '?');
            assert forall|j: int| 0 <= j < p.len() implies r[j] != '?' by {
                assert(r[j] == p[j]);
            }
            lemma_find_at(r, '?', 0, p.len() as int);
            assert(r.subrange(0, p.len() as int) =~= p);
            assert(r.subrange(p.len() as int + 1, r.len() as int) =~= x);
        },
        None => {
            lemma_find_none(r, '?', 0);
        },
    }
}

} // verus!
