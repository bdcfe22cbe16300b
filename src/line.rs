//! Bounded line reading over the bytes a peer has sent so far.
use vstd::prelude::*;

verus! {

/// What the next line of a byte buffer is.
#[derive(Debug, Clone, Copy, PartialEq, Eq, Structural)]
pub enum LineScan {
    /// The line's text is the bytes from the start up to `end` (its `\n`, and
    /// a `\r` before it, left out); the next line starts at `next`.
    Line { end: usize, next: usize },
    /// No terminator yet, within the limit, and more bytes may come.
    NeedMore,
    /// More than the maximum length of bytes came, and none of the first
    /// that many ended the line.
    TooLong,
    /// The stream ended before the line's first byte.
    NoData,
}

/// The first `\n` in `s` from `i` up to `lim`, or `lim` where there is none.
pub open spec fn newline_from(s: Seq<u8>, i: int, lim: int) -> int
    decreases lim - i,
{
    if i >= lim {
        lim
    } else if s[i] == 10 {
        i
    } else {
        newline_from(s, i + 1, lim)
    }
}

/// The next line of `buf` from `start`, where a line with its `\n` holds at
/// most `max` bytes, and `eof` says that no more bytes will come.
pub open spec fn scan_spec(buf: Seq<u8>, start: int, max: int, eof: bool) -> LineScan {
    let n = buf.len() as int;
    let lim = if n - start > max {
        start + max
    } else {
        n
    };
    let k = newline_from(buf, start, lim);
    if k < lim {
        let end = if k > start && buf[k - 1] == 13 {
            k - 1
        } else {
            k
        };
        LineScan::Line { end: end as usize, next: (k + 1) as usize }
    } else if n - start > max {
        LineScan::TooLong
    } else if !eof {
        LineScan::NeedMore
    } else if n == start {
        LineScan::NoData
    } else {
        LineScan::Line { end: n as usize, next: n as usize }
    }
}

/// Finds the next line of `buf` from `start`, as `scan_spec` states it.
pub fn scan_line(buf: &[u8], start: usize, max: usize, eof: bool) -> (r: LineScan)
    requires
        start <= buf@.len(),
    ensures
        r == scan_spec(buf@, start as int, max as int, eof),
        r matches LineScan::Line { end, next } ==> start <= end < next <= buf@.len() || (start
            < end && end == next && next == buf@.len()),
{
    let n = buf.len();
    let lim = if n - start > max {
        start + max
    } else {
        n
    };
    let mut k: usize = start;
    while k < lim && buf[k] != 10
        invariant
            start <= k <= lim <= n,
            n == buf@.len(),
            newline_from(buf@, start as int, lim as int) == newline_from(buf@, k as int, lim as int),
        decreases lim - k,
    {
        k = k + 1;
    }
    if k < lim {
        let end = if k > start && buf[k - 1] == 13 {
            k - 1
        } else {
            k
        };
        LineScan::Line { end, next: k + 1 }
    } else if n - start > max {
        LineScan::TooLong
    } else if !eof {
        LineScan::NeedMore
    } else if n == start {
        LineScan::NoData
    } else {
        LineScan::Line { end: n, next: n }
    }
}

proof fn lemma_newline_range(s: Seq<u8>, i: int, lim: int)
    requires
        i <= lim <= s.len(),
        0 <= i,
    ensures
        i <= newline_from(s, i, lim) <= lim,
        newline_from(s, i, lim) < lim ==> s[newline_from(s, i, lim)] == 10,
        forall|j: int| i <= j < newline_from(s, i, lim) ==> s[j] != 10,
    decreases lim - i,
{
    if i < lim && s[i] != 10 {
        lemma_newline_range(s, i + 1, lim);
    }
}

/// A line that `scan_spec` finds lies inside the buffer, after its start; one
/// that ends in `\n` holds no earlier `\n` and fits, terminator included, in
/// `max` bytes.
pub proof fn lemma_scan_bounds(buf: Seq<u8>, start: int, max: int, eof: bool)
    requires
        0 <= start <= buf.len() <= usize::MAX,
        0 <= max,
    ensures
        scan_spec(buf, start, max, eof) matches LineScan::Line { end, next } ==> start <= end
            <= next <= buf.len() && start < next,
        scan_spec(buf, start, max, eof) matches LineScan::Line { end, next } ==> end == next || (
        buf[next - 1] == 10 && next - start <= max && (forall|j: int|
            start <= j < next - 1 ==> buf[j] != 10)),
        eof ==> scan_spec(buf, start, max, eof) != LineScan::NeedMore,
{
    let n = buf.len() as int;
    let lim = if n - start > max {
        start + max
    } else {
        n
    };
    lemma_newline_range(buf, start, lim);
}

/// Where more than `max` bytes follow `start` and none of the first `max`
/// of them ends a line, the line is too long, whether or not the stream has
/// ended; that answer differs from the one for a stream that ended early.
pub proof fn lemma_too_long(buf: Seq<u8>, start: int, max: int, eof: bool)
    requires
        0 <= start <= buf.len(),
        0 <= max,
        buf.len() - start > max,
        forall|j: int| start <= j < start + max ==> buf[j] != 10,
    ensures
        scan_spec(buf, start, max, eof) == LineScan::TooLong,
        scan_spec(buf, start, max, eof) != LineScan::NoData,
{
    let lim = start + max;
    lemma_newline_range(buf, start, lim);
    if newline_from(buf, start, lim) < lim {
        assert(buf[newline_from(buf, start, lim)] == 10);
    }
}

} // verus!
