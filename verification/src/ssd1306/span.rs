//! Spans: the stretches of a page row that are sent again.
//!
//! A span starts at a byte that differs between the old row and the new
//! one. It runs on over later differing bytes as long as no more than
//! [`SPAN_GAP`] unchanged bytes lie between two of them, and ends right
//! after the last differing byte it reached. Sending a few unchanged bytes
//! costs less than addressing a new span.
use vstd::prelude::*;

verus! {

/// The longest run of unchanged bytes that a span bridges.
pub const SPAN_GAP: usize = 4;

/// The scan for the end of a span: `i` is the next index to look at and
/// `last_diff` the last index seen to differ.
pub open spec fn scan_span(a: Seq<u8>, b: Seq<u8>, last_diff: int, i: int) -> int
    decreases a.len() - i,
{
    if i >= a.len() {
        last_diff + 1
    } else {
        let last = if a[i] != b[i] { i } else { last_diff };
        if i - last > SPAN_GAP {
            last + 1
        } else {
            scan_span(a, b, last, i + 1)
        }
    }
}

/// The length of the span that starts at the first byte of two rows.
pub open spec fn span_end(a: Seq<u8>, b: Seq<u8>) -> int {
    scan_span(a, b, 0, 1)
}

/// Whether a byte differs among the `SPAN_GAP + 1` bytes from `k` on.
pub open spec fn differs_from(a: Seq<u8>, b: Seq<u8>, k: int) -> bool {
    exists|j: int| k <= j <= k + SPAN_GAP && a[j] != b[j]
}

/// What makes `end` the span's length: the span ends after its first byte
/// or after a differing one; the bytes that follow it, up to one more than
/// the gap or to the end of the row, are unchanged; and inside it no run
/// of unchanged bytes is longer than the gap.
pub open spec fn is_span_end(a: Seq<u8>, b: Seq<u8>, end: int) -> bool {
    &&& 1 <= end
    &&& end == 1 || (end <= a.len() && a[end - 1] != b[end - 1])
    &&& forall|i: int| end <= i < a.len() && i <= end + SPAN_GAP ==> a[i] == b[i]
    &&& forall|k: int| 1 <= k && k + SPAN_GAP < end ==> #[trigger] differs_from(a, b, k)
}

/// The scan ends at the span's length, whatever it has passed so far.
proof fn lemma_scan_span(a: Seq<u8>, b: Seq<u8>, last_diff: int, i: int)
    requires
        0 <= last_diff < i,
        i - last_diff <= SPAN_GAP + 1,
        last_diff == 0 || (last_diff < a.len() && a[last_diff] != b[last_diff]),
        forall|j: int| last_diff < j < i && j < a.len() ==> a[j] == b[j],
        forall|k: int| 1 <= k && k + SPAN_GAP < i ==> #[trigger] differs_from(a, b, k),
    ensures
        is_span_end(a, b, scan_span(a, b, last_diff, i)),
        last_diff < scan_span(a, b, last_diff, i),
    decreases a.len() - i,
{
    if i >= a.len() {
        let end = last_diff + 1;
        assert forall|k: int| 1 <= k && k + SPAN_GAP < end implies #[trigger] differs_from(
            a,
            b,
            k,
        ) by {}
    } else {
        let last = if a[i] != b[i] { i } else { last_diff };
        if i - last > SPAN_GAP {
        } else {
            assert forall|k: int| 1 <= k && k + SPAN_GAP < i + 1 implies #[trigger] differs_from(
                a,
                b,
                k,
            ) by {
                if k + SPAN_GAP == i {
                    assert(k <= last <= k + SPAN_GAP && a[last] != b[last]);
                }
            }
            lemma_scan_span(a, b, last, i + 1);
        }
    }
}

/// The span's length is what `is_span_end` describes.
pub proof fn lemma_span_end(a: Seq<u8>, b: Seq<u8>)
    ensures
        is_span_end(a, b, span_end(a, b)),
{
    lemma_scan_span(a, b, 0, 1);
}

/// Only one length is the span's.
pub proof fn lemma_span_end_unique(a: Seq<u8>, b: Seq<u8>, e1: int, e2: int)
    requires
        is_span_end(a, b, e1),
        is_span_end(a, b, e2),
    ensures
        e1 == e2,
{
    lemma_span_end_not_later(a, b, e1, e2);
    lemma_span_end_not_later(a, b, e2, e1);
}

/// A span cannot end at `e1` and also further on: past `e1` lies a run of
/// unchanged bytes that no span contains and none ends in.
proof fn lemma_span_end_not_later(a: Seq<u8>, b: Seq<u8>, e1: int, e2: int)
    requires
        is_span_end(a, b, e1),
        is_span_end(a, b, e2),
    ensures
        e2 <= e1,
{
    if e1 < e2 {
        assert(a[e2 - 1] != b[e2 - 1]);
        if e2 - 1 <= e1 + SPAN_GAP {
            assert(a[e2 - 1] == b[e2 - 1]);
        } else {
            assert(differs_from(a, b, e1));
            let j = choose|j: int| e1 <= j <= e1 + SPAN_GAP && a[j] != b[j];
            assert(a[j] == b[j]);
        }
    }
}

/// The length of the span that starts at the first byte of the rows `a`
/// and `b`: one past the last differing byte that is reached from there
/// without crossing more than [`SPAN_GAP`] unchanged bytes.
pub fn find_span_end(a: &[u8], b: &[u8]) -> (end: usize)
    requires
        a@.len() <= b@.len(),
    ensures
        end == span_end(a@, b@),
        is_span_end(a@, b@, end as int),
{
    proof {
        lemma_span_end(a@, b@);
    }
    let mut last_diff: usize = 0;
    let mut i: usize = 1;
    while i < a.len()
        invariant
            a@.len() <= b@.len(),
            last_diff < i,
            last_diff < a@.len() || last_diff == 0,
            i - last_diff <= SPAN_GAP + 1,
            scan_span(a@, b@, last_diff as int, i as int) == span_end(a@, b@),
            is_span_end(a@, b@, span_end(a@, b@)),
        decreases a@.len() - i,
    {
        if a[i] != b[i] {
            last_diff = i;
        }
        if i - last_diff > SPAN_GAP {
            return last_diff + 1;
        }
        i += 1;
    }
    last_diff + 1
}

} // verus!
