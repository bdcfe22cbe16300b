//! Header fields: names folded to lower case, each with the values it was
//! given, in the order they arrived.
use vstd::prelude::*;
use crate::method::HttpRequestValidationErr;
use crate::path::find_from;
use crate::text::{copy_range, lower_of, lowercase, string_of, trim, trim_chars};

verus! {

/// The map after one more header line: a known name gets the value appended,
/// a new name starts with it.
pub open spec fn add_header(
    m: Map<Seq<char>, Seq<Seq<char>>>,
    k: Seq<char>,
    v: Seq<char>,
) -> Map<Seq<char>, Seq<Seq<char>>> {
    if m.contains_key(k) {
        m.insert(k, m[k].push(v))
    } else {
        m.insert(k, seq![v])
    }
}

/// What a non-blank header line holds: its name, trimmed and in lower case,
/// and its value, trimmed; the first `:` parts them. `None` where no `:` is.
pub open spec fn header_field(line: Seq<char>) -> Option<(Seq<char>, Seq<char>)> {
    let t = trim(line);
    match find_from(t, ':', 0) {
        Some(k) => Some((lower_of(trim(t.subrange(0, k))), trim(t.subrange(k + 1, t.len() as int)))),
        None => None,
    }
}

#[derive(Debug)]
pub struct HttpHeaders(Vec<(String, Vec<String>)>);

impl HttpHeaders {
    pub closed spec fn key_at(&self, i: int) -> Seq<char> {
        self.0@[i].0@
    }

    pub closed spec fn has_key(&self, k: Seq<char>) -> bool {
        exists|i: int| 0 <= i < self.0@.len() && #[trigger] self.key_at(i) == k
    }

    /// Each name stands in one entry.
    pub closed spec fn wf(&self) -> bool {
        forall|i: int, j: int|
            0 <= i < j < self.0@.len() ==> #[trigger] self.key_at(i) != #[trigger] self.key_at(j)
    }

    /// Each lower-case name with its values, in arrival order.
    pub closed spec fn view(&self) -> Map<Seq<char>, Seq<Seq<char>>> {
        Map::new(
            |k: Seq<char>| self.has_key(k),
            |k: Seq<char>|
                self.0@[choose|i: int| 0 <= i < self.0@.len() && #[trigger] self.key_at(i) == k].1.deep_view(),
        )
    }

    pub fn new() -> (r: HttpHeaders)
        ensures
            r.wf(),
            r@ == Map::<Seq<char>, Seq<Seq<char>>>::empty(),
    {
        let r = HttpHeaders(Vec::new());
        assert(r@ =~= Map::<Seq<char>, Seq<Seq<char>>>::empty());
        r
    }

    /// The index of the entry for `key`, a name already in lower case.
    fn find(&self, key: &String) -> (r: Option<usize>)
        requires
            self.wf(),
        ensures
            match r {
                Some(i) => i < self.0@.len() && self.key_at(i as int) == key@,
                None => !self.has_key(key@),
            },
    {
        let mut i: usize = 0;
        while i < self.0.len()
            invariant
                0 <= i <= self.0@.len(),
                forall|j: int| 0 <= j < i ==> self.key_at(j) != key@,
            decreases self.0@.len() - i,
        {
            if self.0[i].0 == *key {
                return Some(i);
            }
            i = i + 1;
        }
        None
    }

    /// The values given for a name already in lower case.
    pub fn get_lowered(&self, key: &String) -> (r: Option<&Vec<String>>)
        requires
            self.wf(),
        ensures
            match r {
                Some(v) => self@.contains_key(key@) && v.deep_view() == self@[key@],
                None => !self@.contains_key(key@),
            },
    {
        match self.find(key) {
            Some(i) => Some(&self.0[i].1),
            None => None,
        }
    }

    /// The values given for a header name, in any letter case.
    pub fn get(&self, key: &str) -> (r: Option<&Vec<String>>)
        requires
            self.wf(),
        ensures
            match r {
                Some(v) => self@.contains_key(lower_of(key@)) && v.deep_view() == self@[lower_of(
                    key@,
                )],
                None => !self@.contains_key(lower_of(key@)),
            },
    {
        let k = lowercase(key);
        self.get_lowered(&k)
    }

    proof fn lemma_view_at(&self, i: int)
        requires
            self.wf(),
            0 <= i < self.0@.len(),
        ensures
            self@.contains_key(self.key_at(i)),
            self@[self.key_at(i)] == self.0@[i].1.deep_view(),
    {
        let k = self.key_at(i);
        assert(self.has_key(k));
        let j = choose|j: int| 0 <= j < self.0@.len() && #[trigger] self.key_at(j) == k;
        if j < i {
            assert(self.key_at(j) != self.key_at(i));
        } else if i < j {
            assert(self.key_at(i) != self.key_at(j));
        }
    }

    /// Appends a value to a name already in lower case.
    pub fn add(&mut self, key: String, value: String)
        requires
            old(self).wf(),
        ensures
            final(self).wf(),
            final(self)@ == add_header(old(self)@, key@, value@),
    {
        let ghost pre = *self;
        match self.find(&key) {
            Some(i) => {
                self.0[i].1.push(value);
                proof {
                    assert forall|j: int| 0 <= j < self.0@.len() implies #[trigger] self.key_at(j)
                        == pre.key_at(j) by {}
                    assert forall|j: int| 0 <= j < self.0@.len() && j != i implies self.0@[j]
                        == pre.0@[j] by {}
                    assert(self.wf());
                    pre.lemma_view_at(i as int);
                    self.lemma_view_at(i as int);
                    let m = add_header(pre@, key@, value@);
                    assert forall|k: Seq<char>| #[trigger] self@.contains_key(k) == m.contains_key(k) by {
                        if pre.has_key(k) {
                            let j = choose|j: int| 0 <= j < pre.0@.len() && #[trigger] pre.key_at(j) == k;
                            assert(self.key_at(j) == k);
                        }
                        if self.has_key(k) {
                            let j = choose|j: int| 0 <= j < self.0@.len() && #[trigger] self.key_at(j) == k;
                            assert(pre.key_at(j) == k);
                        }
                    }
                    assert forall|k: Seq<char>| #[trigger] self@.contains_key(k) implies self@[k] =~~= m[k] by {
                        let j = choose|j: int| 0 <= j < self.0@.len() && #[trigger] self.key_at(j) == k;
                        self.lemma_view_at(j);
                        pre.lemma_view_at(j);
                    }
                    assert(self@ =~~= m);
                }
            },
            None => {
                let mut vals: Vec<String> = Vec::new();
                vals.push(value);
                self.0.push((key, vals));
                proof {
                    let n = pre.0@.len() as int;
                    assert forall|j: int| 0 <= j < n implies #[trigger] self.key_at(j) == pre.key_at(j)
                        && self.0@[j] == pre.0@[j] by {}
                    assert(self.key_at(n) == key@);
                    assert(self.wf());
                    self.lemma_view_at(n);
                    let m = add_header(pre@, key@, value@);
                    assert forall|k: Seq<char>| #[trigger] self@.contains_key(k) == m.contains_key(k) by {
                        if pre.has_key(k) {
                            let j = choose|j: int| 0 <= j < pre.0@.len() && #[trigger] pre.key_at(j) == k;
                            assert(self.key_at(j) == k);
                        }
                        if self.has_key(k) && k != key@ {
                            let j = choose|j: int| 0 <= j < self.0@.len() && #[trigger] self.key_at(j) == k;
                            assert(pre.key_at(j) == k);
                        }
                    }
                    assert forall|k: Seq<char>| #[trigger] self@.contains_key(k) implies self@[k] =~~= m[k] by {
                        let j = choose|j: int| 0 <= j < self.0@.len() && #[trigger] self.key_at(j) == k;
                        self.lemma_view_at(j);
                        if j < n {
                            pre.lemma_view_at(j);
                        }
                    }
                    assert(self@ =~~= m);
                }
            },
        }
    }
}

/// Reads one non-blank header line: the name, trimmed and in lower case, and
/// the value, trimmed; the first `:` parts them.
pub fn parse_header_line(line: &Vec<char>) -> (r: Result<(String, String), HttpRequestValidationErr>)
    ensures
        match header_field(line@) {
            Some(f) => r matches Ok(p) && p.0@ == f.0 && p.1@ == f.1,
            None => r matches Err(HttpRequestValidationErr::HeadersMalformed),
        },
{
    let t = trim_chars(line);
    let n = t.len();
    let mut k: usize = 0;
    while k < n && t[k] != ':'
        invariant
            n == t@.len(),
            k <= n,
            find_from(t@, ':', 0) == find_from(t@, ':', k as int),
        decreases n - k,
    {
        k = k + 1;
    }
    if k == n {
        return Err(HttpRequestValidationErr::HeadersMalformed);
    }
    let name = copy_range(&t, 0, k);
    let name = trim_chars(&name);
    let name = string_of(&name);
    let value = copy_range(&t, k + 1, n);
    let value = trim_chars(&value);
    Ok((lowercase(name.as_str()), string_of(&value)))
}

} // verus!
