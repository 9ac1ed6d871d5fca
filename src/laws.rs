//! Properties of wrapping that hold for every text, width and measure.
use vstd::prelude::*;
use crate::words::{joined, words_of, lemma_join_words, lemma_words_of_len};
use crate::wrap::{PADDING, breaks, clamp, line_end, padded, wrap_lines};

verus! {

/// The lines of `text` wrapped at `max` pixels when a word measures `width(word)`.
pub open spec fn wrap_text_lines(text: Seq<char>, max: int, width: spec_fn(Seq<char>) -> nat) -> Seq<Seq<char>> {
    let ws = words_of(text);
    wrap_lines(ws, ws.map_values(|w: Seq<char>| width(w) as int), max)
}

/// Widths of words `lo..hi`, each with its padding.
pub open spec fn padded_width(ws: Seq<int>, lo: int, hi: int) -> int
    decreases hi - lo,
{
    if hi <= lo {
        0
    } else {
        padded_width(ws, lo, hi - 1) + ws[hi - 1] + PADDING
    }
}

/// The width that wrapping reckons for a line of words `lo..hi`: the sum of
/// the words' own widths and the padding between neighbours (not a width
/// measured on the line's text as a whole).
pub open spec fn line_width(ws: Seq<int>, lo: int, hi: int) -> int {
    if hi <= lo {
        0
    } else {
        padded_width(ws, lo, hi) - PADDING
    }
}

/// The width of the widest of words `lo..hi` (zero for none).
pub open spec fn widest(ws: Seq<int>, lo: int, hi: int) -> int
    decreases hi - lo,
{
    if hi <= lo {
        0
    } else {
        let m = widest(ws, lo, hi - 1);
        if ws[hi - 1] > m {
            ws[hi - 1]
        } else {
            m
        }
    }
}

/// All widths are non-negative.
pub open spec fn measured(ws: Seq<int>) -> bool {
    forall|i: int| 0 <= i < ws.len() ==> ws[i] >= 0
}

proof fn lemma_padded_width_prefix(ws: Seq<int>, k: int, lo: int, hi: int)
    requires
        0 <= lo,
        hi <= k <= ws.len(),
    ensures
        padded_width(ws.take(k), lo, hi) == padded_width(ws, lo, hi),
    decreases hi - lo,
{
    if hi > lo {
        lemma_padded_width_prefix(ws, k, lo, hi - 1);
        assert(ws.take(k)[hi - 1] == ws[hi - 1]);
    }
}

/// Line starts that begin at 0, stay within the `n` words, and increase
/// after the first line (which alone may be empty).
pub open spec fn starts_ok(bs: Seq<int>, n: int) -> bool {
    &&& bs.len() >= 1
    &&& bs[0] == 0
    &&& n > 0 ==> bs.last() < n
    &&& forall|j: int| 0 <= j < bs.len() ==> 0 <= #[trigger] bs[j] <= n
    &&& forall|j: int| 0 <= j < bs.len() - 1 ==> #[trigger] bs[j] <= bs[j + 1]
    &&& forall|j: int| 1 <= j < bs.len() - 1 ==> #[trigger] bs[j] < bs[j + 1]
}

/// Each line of two or more words fits within `max` once padded.
pub open spec fn lines_fit(ws: Seq<int>, bs: Seq<int>, max: int) -> bool {
    forall|j: int| 0 <= j < bs.len() && #[trigger] line_end(bs, ws.len() as int, j) - bs[j] >= 2
        ==> padded_width(ws, bs[j], line_end(bs, ws.len() as int, j)) < max + PADDING
}

/// What greedy filling keeps true: lines start in order, the free width is
/// what the current line leaves of `max`, and a line of two or more words
/// fits within `max`.
proof fn lemma_breaks(ws: Seq<int>, max: int)
    requires
        max >= 0,
        measured(ws),
    ensures
        starts_ok(breaks(ws, max).0, ws.len() as int),
        0 <= breaks(ws, max).1 <= max,
        breaks(ws, max).1 == clamp(max - padded_width(ws, breaks(ws, max).0.last(), ws.len() as int)),
        lines_fit(ws, breaks(ws, max).0, max),
    decreases ws.len(),
{
    if ws.len() > 0 {
        let p = ws.drop_last();
        assert(measured(p));
        lemma_breaks(p, max);
        lemma_breaks_step(ws, max);
    }
}

#[verifier::rlimit(30)]
proof fn lemma_breaks_step(ws: Seq<int>, max: int)
    requires
        max >= 0,
        measured(ws),
        ws.len() > 0,
        starts_ok(breaks(ws.drop_last(), max).0, ws.len() - 1),
        0 <= breaks(ws.drop_last(), max).1 <= max,
        breaks(ws.drop_last(), max).1 == clamp(
            max - padded_width(ws.drop_last(), breaks(ws.drop_last(), max).0.last(), ws.len() - 1),
        ),
        lines_fit(ws.drop_last(), breaks(ws.drop_last(), max).0, max),
    ensures
        starts_ok(breaks(ws, max).0, ws.len() as int),
        0 <= breaks(ws, max).1 <= max,
        breaks(ws, max).1 == clamp(max - padded_width(ws, breaks(ws, max).0.last(), ws.len() as int)),
        lines_fit(ws, breaks(ws, max).0, max),
{
    let p = ws.drop_last();
    let k = p.len() as int;
    let w = ws.last();
    let (bs, rem) = breaks(p, max);
    let (bs2, rem2) = breaks(ws, max);
    assert(ws.take(k) =~= p);
    assert(w >= 0);
    lemma_padded_width_prefix(ws, k, bs.last(), k);
    assert forall|j: int| 0 <= j < bs.len() - 1 implies
        #[trigger] padded_width(ws, bs[j], bs[j + 1]) == padded_width(p, bs[j], bs[j + 1]) by {
        lemma_padded_width_prefix(ws, k, bs[j], bs[j + 1]);
    }
    if w < rem {
        assert(bs2 == bs);
        assert(padded_width(ws, bs.last(), k + 1) == padded_width(p, bs.last(), k) + w + PADDING);
        assert forall|j: int| 0 <= j < bs2.len() && #[trigger] line_end(bs2, ws.len() as int, j) - bs2[j] >= 2
            implies padded_width(ws, bs2[j], line_end(bs2, ws.len() as int, j)) < max + PADDING by {
            if j < bs.len() - 1 {
                assert(line_end(bs, k, j) == bs[j + 1]);
            }
        }
    } else {
        assert(bs2 == bs.push(k));
        assert(padded_width(ws, k, k) == 0);
        assert(padded_width(ws, k, k + 1) == w + PADDING);
        assert forall|j: int| 0 <= j < bs2.len() && #[trigger] line_end(bs2, ws.len() as int, j) - bs2[j] >= 2
            implies padded_width(ws, bs2[j], line_end(bs2, ws.len() as int, j)) < max + PADDING by {
            if j < bs.len() - 1 {
                assert(line_end(bs, k, j) == bs[j + 1]);
            } else if j == bs.len() - 1 {
                assert(line_end(bs, k, j) == k);
            }
        }
    }
}

proof fn lemma_widest(ws: Seq<int>, lo: int, hi: int)
    requires
        0 <= lo < hi <= ws.len(),
    ensures
        widest(ws, lo, hi) >= ws[lo],
    decreases hi - lo,
{
    if hi - 1 > lo {
        lemma_widest(ws, lo, hi - 1);
    }
}

/// Wrapping always gives at least one line, also for no words at all.
pub proof fn law_wrap_nonempty(words: Seq<Seq<char>>, ws: Seq<int>, max: int)
    requires
        max >= 0,
        measured(ws),
    ensures
        wrap_lines(words, ws, max).len() >= 1,
{
    lemma_breaks(ws, max);
}

/// Wrapping any text, the empty text included, gives at least one line.
pub proof fn law_wrap_text_nonempty(text: Seq<char>, max: int, width: spec_fn(Seq<char>) -> nat)
    requires
        max >= 0,
    ensures
        wrap_text_lines(text, max, width).len() >= 1,
{
    let ws = words_of(text);
    let m = ws.map_values(|w: Seq<char>| width(w) as int);
    law_wrap_nonempty(ws, m, max);
}

/// A line of two or more words, reckoned as its words' widths plus the
/// padding between them, is narrower than the wrapping width.
pub proof fn law_shared_lines_fit(ws: Seq<int>, max: int, j: int)
    requires
        max >= 0,
        measured(ws),
        0 <= j < breaks(ws, max).0.len(),
        line_end(breaks(ws, max).0, ws.len() as int, j) - breaks(ws, max).0[j] >= 2,
    ensures
        line_width(ws, breaks(ws, max).0[j], line_end(breaks(ws, max).0, ws.len() as int, j)) < max,
{
    lemma_breaks(ws, max);
}

/// No line's reckoned width (its words' widths plus the padding between
/// them) exceeds the wrapping width by more than the widest word on it.
pub proof fn law_line_width_bound(ws: Seq<int>, max: int, j: int)
    requires
        max >= 0,
        measured(ws),
        0 <= j < breaks(ws, max).0.len(),
    ensures
        ({
            let bs = breaks(ws, max).0;
            let lo = bs[j];
            let hi = line_end(bs, ws.len() as int, j);
            line_width(ws, lo, hi) <= max + widest(ws, lo, hi)
        }),
{
    lemma_breaks(ws, max);
    let bs = breaks(ws, max).0;
    let lo = bs[j];
    let hi = line_end(bs, ws.len() as int, j);
    if hi - lo >= 2 {
        lemma_widest(ws, lo, hi);
        assert(ws[lo] >= 0);
    } else if hi - lo == 1 {
        assert(padded_width(ws, lo, lo) == 0);
        assert(line_width(ws, lo, hi) == ws[lo]);
        lemma_widest(ws, lo, hi);
    }
}

proof fn lemma_line_count_monotone(ws: Seq<int>, small: int, large: int)
    requires
        0 <= small <= large,
        measured(ws),
    ensures
        breaks(ws, small).0.len() > breaks(ws, large).0.len()
            || (breaks(ws, small).0.len() == breaks(ws, large).0.len()
                && breaks(ws, small).1 <= breaks(ws, large).1),
    decreases ws.len(),
{
    if ws.len() > 0 {
        let p = ws.drop_last();
        assert(measured(p));
        lemma_line_count_monotone(p, small, large);
        lemma_breaks(p, small);
        lemma_breaks(p, large);
    }
}

/// Narrowing the width never gives fewer lines.
pub proof fn law_line_count_monotone(words: Seq<Seq<char>>, ws: Seq<int>, small: int, large: int)
    requires
        0 <= small <= large,
        measured(ws),
    ensures
        wrap_lines(words, ws, small).len() >= wrap_lines(words, ws, large).len(),
{
    lemma_line_count_monotone(ws, small, large);
}

proof fn lemma_padded_joined(words: Seq<Seq<char>>, k: int)
    requires
        1 <= k <= words.len(),
    ensures
        padded(words, 0, k) == joined(words.take(k)) + seq![' '],
    decreases k,
{
    let t = words.take(k);
    if k == 1 {
        assert(padded(words, 0, 0) == Seq::<char>::empty());
        assert(joined(t) == t[0]);
        assert(padded(words, 0, 1) =~= joined(t) + seq![' ']);
    } else {
        lemma_padded_joined(words, k - 1);
        assert(t.drop_last() =~= words.take(k - 1));
        assert(joined(t) == joined(t.drop_last()) + seq![' '] + t.last());
        assert(padded(words, 0, k) =~= joined(t) + seq![' ']);
    }
}

/// Text that wraps to a single line comes out unchanged, so joining the
/// lines again and wrapping at the same width gives the same lines.
pub proof fn law_rewrap_single_line(text: Seq<char>, max: int, width: spec_fn(Seq<char>) -> nat)
    requires
        max >= 0,
        wrap_text_lines(text, max, width).len() == 1,
    ensures
        wrap_text_lines(text, max, width)[0] == text,
        wrap_text_lines(joined(wrap_text_lines(text, max, width)), max, width) == wrap_text_lines(text, max, width),
{
    let words = words_of(text);
    let ws = words.map_values(|w: Seq<char>| width(w) as int);
    lemma_words_of_len(text);
    assert(measured(ws));
    lemma_breaks(ws, max);
    let bs = breaks(ws, max).0;
    assert(bs.len() == 1);
    lemma_padded_joined(words, words.len() as int);
    assert(words.take(words.len() as int) =~= words);
    lemma_join_words(text);
    let t = padded(words, 0, words.len() as int);
    assert(t.drop_last() =~= text);
    let lines = wrap_text_lines(text, max, width);
    assert(joined(lines) == lines[0]);
}

} // verus!
