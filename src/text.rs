//! Character-level helpers: white space, ASCII case folding, trimming and
//! splitting, and the conversions between bytes, text and characters.
use vstd::prelude::*;
use vstd::utf8::{decode_utf8 as decode_utf8_spec, valid_utf8};

verus! {

/// White space as Unicode defines it (the set `char::is_whitespace` accepts).
pub open spec fn is_ws(c: char) -> bool {
    let u = c as u32;
    u == 0x09 || u == 0x0a || u == 0x0b || u == 0x0c || u == 0x0d || u == 0x20 || u == 0x85
        || u == 0xa0 || u == 0x1680 || (0x2000 <= u && u <= 0x200a) || u == 0x2028 || u == 0x2029
        || u == 0x202f || u == 0x205f || u == 0x3000
}

pub fn is_whitespace(c: char) -> (r: bool)
    ensures
        r == is_ws(c),
{
    let u = c as u32;
    u == 0x09 || u == 0x0a || u == 0x0b || u == 0x0c || u == 0x0d || u == 0x20 || u == 0x85
        || u == 0xa0 || u == 0x1680 || (0x2000 <= u && u <= 0x200a) || u == 0x2028 || u == 0x2029
        || u == 0x202f || u == 0x205f || u == 0x3000
}

/// `a` and `b` are the same letter up to ASCII case, or the same character.
pub open spec fn same_ignoring_case(a: char, b: char) -> bool {
    let x = a as u32;
    let y = b as u32;
    x == y || (0x41 <= x && x <= 0x5a && y == x + 32) || (0x41 <= y && y <= 0x5a && x == y + 32)
}

pub open spec fn eq_ignoring_case(s: Seq<char>, t: Seq<char>) -> bool {
    s.len() == t.len() && forall|i: int| 0 <= i < s.len() ==> same_ignoring_case(#[trigger] s[i], t[i])
}

pub fn eq_ignore_case(s: &Vec<char>, t: &Vec<char>) -> (r: bool)
    ensures
        r == eq_ignoring_case(s@, t@),
{
    if s.len() != t.len() {
        return false;
    }
    let mut i: usize = 0;
    while i < s.len()
        invariant
            s@.len() == t@.len(),
            0 <= i <= s@.len(),
            forall|j: int| 0 <= j < i ==> same_ignoring_case(#[trigger] s@[j], t@[j]),
        decreases s@.len() - i,
    {
        let x = s[i] as u32;
        let y = t[i] as u32;
        if !(x == y || (0x41 <= x && x <= 0x5a && y == x + 32) || (0x41 <= y && y <= 0x5a && x == y
            + 32)) {
            return false;
        }
        i = i + 1;
    }
    true
}

/// The text without its leading white space.
pub open spec fn trim_start(s: Seq<char>) -> Seq<char>
    decreases s.len(),
{
    if s.len() > 0 && is_ws(s[0]) {
        trim_start(s.drop_first())
    } else {
        s
    }
}

/// The text without its trailing white space.
pub open spec fn trim_end(s: Seq<char>) -> Seq<char>
    decreases s.len(),
{
    if s.len() > 0 && is_ws(s.last()) {
        trim_end(s.drop_last())
    } else {
        s
    }
}

/// The text without white space at either end.
pub open spec fn trim(s: Seq<char>) -> Seq<char> {
    trim_end(trim_start(s))
}

/// The text with every white space character taken out.
pub open spec fn strip_ws(s: Seq<char>) -> Seq<char>
    decreases s.len(),
{
    if s.len() == 0 {
        s
    } else if is_ws(s.last()) {
        strip_ws(s.drop_last())
    } else {
        strip_ws(s.drop_last()).push(s.last())
    }
}

/// The characters of `s` from `lo` up to `hi`, copied.
pub fn copy_range(s: &Vec<char>, lo: usize, hi: usize) -> (r: Vec<char>)
    requires
        lo <= hi <= s@.len(),
    ensures
        r@ == s@.subrange(lo as int, hi as int),
{
    let mut r: Vec<char> = Vec::new();
    let mut i: usize = lo;
    while i < hi
        invariant
            lo <= i <= hi <= s@.len(),
            r@ == s@.subrange(lo as int, i as int),
        decreases hi - i,
    {
        r.push(s[i]);
        i = i + 1;
        assert(r@ =~= s@.subrange(lo as int, i as int));
    }
    r
}

/// `s` without white space at either end.
pub fn trim_chars(s: &Vec<char>) -> (r: Vec<char>)
    ensures
        r@ == trim(s@),
{
    let n = s.len();
    let mut lo: usize = 0;
    assert(s@.subrange(0, n as int) =~= s@);
    while lo < n && is_whitespace(s[lo])
        invariant
            n == s@.len(),
            lo <= n,
            trim_start(s@) == trim_start(s@.subrange(lo as int, n as int)),
        decreases n - lo,
    {
        assert(s@.subrange(lo as int, n as int).drop_first() =~= s@.subrange(lo + 1, n as int));
        lo = lo + 1;
    }
    assert(trim_start(s@) == s@.subrange(lo as int, n as int));
    let mut hi: usize = n;
    while hi > lo && is_whitespace(s[hi - 1])
        invariant
            n == s@.len(),
            lo <= hi <= n,
            trim(s@) == trim_end(s@.subrange(lo as int, hi as int)),
        decreases hi,
    {
        assert(s@.subrange(lo as int, hi as int).drop_last() =~= s@.subrange(lo as int, hi - 1));
        hi = hi - 1;
    }
    copy_range(s, lo, hi)
}

/// `s` with every white space character taken out.
pub fn strip_ws_chars(s: &Vec<char>) -> (r: Vec<char>)
    ensures
        r@ == strip_ws(s@),
{
    let mut r: Vec<char> = Vec::new();
    let mut i: usize = 0;
    while i < s.len()
        invariant
            0 <= i <= s@.len(),
            r@ == strip_ws(s@.subrange(0, i as int)),
        decreases s@.len() - i,
    {
        assert(s@.subrange(0, i + 1).drop_last() =~= s@.subrange(0, i as int));
        if !is_whitespace(s[i]) {
            r.push(s[i]);
        }
        i = i + 1;
    }
    assert(s@.subrange(0, s@.len() as int) =~= s@);
    r
}

/// One character of a left-to-right split on white space: the words closed so
/// far and the word being read.
pub open spec fn split_step(acc: (Seq<Seq<char>>, Seq<char>), c: char) -> (
    Seq<Seq<char>>,
    Seq<char>,
) {
    if is_ws(c) {
        if acc.1.len() > 0 {
            (acc.0.push(acc.1), Seq::empty())
        } else {
            acc
        }
    } else {
        (acc.0, acc.1.push(c))
    }
}

pub open spec fn split_scan(s: Seq<char>) -> (Seq<Seq<char>>, Seq<char>)
    decreases s.len(),
{
    if s.len() == 0 {
        (Seq::empty(), Seq::empty())
    } else {
        split_step(split_scan(s.drop_last()), s.last())
    }
}

/// The maximal runs of non-white-space characters of `s`, in order.
pub open spec fn words(s: Seq<char>) -> Seq<Seq<char>> {
    let p = split_scan(s);
    if p.1.len() > 0 {
        p.0.push(p.1)
    } else {
        p.0
    }
}

/// Each word is a non-empty run of characters none of which is white space.
pub proof fn lemma_words_shape(s: Seq<char>)
    ensures
        forall|i: int| 0 <= i < words(s).len() ==> #[trigger] words(s)[i].len() > 0,
        forall|i: int, j: int|
            0 <= i < words(s).len() && 0 <= j < words(s)[i].len() ==> !is_ws(#[trigger] words(s)[i][j]),
{
    lemma_split_scan_shape(s);
}

proof fn lemma_split_scan_shape(s: Seq<char>)
    ensures
        forall|i: int| 0 <= i < split_scan(s).0.len() ==> #[trigger] split_scan(s).0[i].len() > 0,
        forall|i: int, j: int|
            0 <= i < split_scan(s).0.len() && 0 <= j < split_scan(s).0[i].len() ==> !is_ws(
                #[trigger] split_scan(s).0[i][j],
            ),
        forall|j: int| 0 <= j < split_scan(s).1.len() ==> !is_ws(#[trigger] split_scan(s).1[j]),
    decreases s.len(),
{
    if s.len() > 0 {
        lemma_split_scan_shape(s.drop_last());
        let p = split_scan(s.drop_last());
        let q = split_scan(s);
        if !is_ws(s.last()) {
            assert forall|j: int| 0 <= j < q.1.len() implies !is_ws(#[trigger] q.1[j]) by {
                if j < p.1.len() {
                    assert(q.1[j] == p.1[j]);
                }
            }
        } else if p.1.len() > 0 {
            assert forall|i: int, j: int| 0 <= i < q.0.len() && 0 <= j < q.0[i].len() implies !is_ws(
                #[trigger] q.0[i][j],
            ) by {
                if i < p.0.len() {
                    assert(q.0[i] == p.0[i]);
                } else {
                    assert(q.0[i] == p.1);
                }
            }
            assert forall|i: int| 0 <= i < q.0.len() implies #[trigger] q.0[i].len() > 0 by {
                if i < p.0.len() {
                    assert(q.0[i] == p.0[i]);
                }
            }
        }
    }
}

/// The words of `s`: its runs of characters between white space.
pub fn split_words(s: &Vec<char>) -> (r: Vec<Vec<char>>)
    ensures
        r.deep_view() == words(s@),
{
    let mut done: Vec<Vec<char>> = Vec::new();
    let mut cur: Vec<char> = Vec::new();
    let mut i: usize = 0;
    assert(s@.subrange(0, 0) =~= Seq::<char>::empty());
    assert(done.deep_view() =~= Seq::<Seq<char>>::empty());
    while i < s.len()
        invariant
            0 <= i <= s@.len(),
            (done.deep_view(), cur@) == split_scan(s@.subrange(0, i as int)),
        decreases s@.len() - i,
    {
        assert(s@.subrange(0, i + 1).drop_last() =~= s@.subrange(0, i as int));
        let c = s[i];
        if is_whitespace(c) {
            if cur.len() > 0 {
                let ghost before = done.deep_view();
                let w = cur;
                done.push(w);
                cur = Vec::new();
                assert(done.deep_view() =~~= before.push(w@));
            }
        } else {
            cur.push(c);
        }
        i = i + 1;
    }
    assert(s@.subrange(0, s@.len() as int) =~= s@);
    if cur.len() > 0 {
        let ghost before = done.deep_view();
        let w = cur;
        done.push(w);
        assert(done.deep_view() =~~= before.push(w@));
    }
    done
}

/// The text that `bytes` encode in UTF-8, if they are well formed.
pub open spec fn utf8_text(bytes: Seq<u8>) -> Option<Seq<char>> {
    if valid_utf8(bytes) {
        Some(decode_utf8_spec(bytes))
    } else {
        None
    }
}

/// Relies on `std::str::from_utf8`: it accepts exactly the well-formed UTF-8
/// byte strings, and then gives the text they encode.
#[verifier::external_body]
pub(crate) fn decode_utf8(b: &[u8]) -> (r: Option<&str>)
    ensures
        r is Some <==> valid_utf8(b@),
        r matches Some(t) ==> t@ == decode_utf8_spec(b@),
{
    std::str::from_utf8(b).ok()
}

/// The characters of a text, in order.
pub fn chars_of(s: &str) -> (r: Vec<char>)
    ensures
        r@ == s@,
{
    broadcast use vstd::string::axiom_spec_iter;

    let mut v: Vec<char> = Vec::new();
    for c in it: s.chars()
        invariant
            it.seq() == s@,
            v@ == it.seq().take(it.index() as int),
    {
        v.push(c);
        assert(v@ =~= it.seq().take(it.index() + 1));
    }
    assert(v@ =~= s@);
    v
}

/// The text in lower case, as Unicode defines it.
pub uninterp spec fn lower_of(s: Seq<char>) -> Seq<char>;

/// Relies on `str::to_lowercase`: the result depends on the characters alone.
#[verifier::external_body]
pub(crate) fn lowercase(s: &str) -> (r: String)
    ensures
        r@ == lower_of(s@),
{
    s.to_lowercase()
}

/// Relies on `String::from_iter` over characters: the string holds exactly them, in order.
#[verifier::external_body]
pub(crate) fn string_of(v: &Vec<char>) -> (r: String)
    ensures
        r@ == v@,
{
    String::from_iter(v.iter())
}

} // verus!
