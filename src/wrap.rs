//! Greedy word-fill line breaking over measured word widths.
use vstd::prelude::*;
use crate::words::views;

verus! {

/// Pixels added after every word: room for the separating space and a margin.
pub const PADDING: u32 = 5;

/// `x`, or zero where `x` is negative.
pub open spec fn clamp(x: int) -> int {
    if x < 0 {
        0
    } else {
        x
    }
}

/// The widths of a `Vec<u32>` as integers.
pub open spec fn ints(v: Seq<u32>) -> Seq<int> {
    v.map_values(|w: u32| w as int)
}

/// After the words of widths `ws`, laid out greedily in lines of `max` pixels:
/// the index of the first word of each line (the first line starts at 0 and
/// may hold no word), and the width still free on the last line.
/// A word goes on the current line when its width is below the free width;
/// otherwise it opens a new line. Each placed word uses its width plus padding.
pub open spec fn breaks(ws: Seq<int>, max: int) -> (Seq<int>, int)
    decreases ws.len(),
{
    if ws.len() == 0 {
        (seq![0], max)
    } else {
        let (bs, rem) = breaks(ws.drop_last(), max);
        let w = ws.last();
        if w < rem {
            (bs, clamp(rem - (w + PADDING)))
        } else {
            (bs.push(ws.len() - 1), clamp(max - (w + PADDING)))
        }
    }
}

/// Words `lo..hi`, each followed by one space.
pub open spec fn padded(words: Seq<Seq<char>>, lo: int, hi: int) -> Seq<char>
    decreases hi - lo,
{
    if hi <= lo {
        Seq::empty()
    } else {
        padded(words, lo, hi - 1) + words[hi - 1] + seq![' ']
    }
}

/// One past the index of the last word of line `j`.
pub open spec fn line_end(bs: Seq<int>, n: int, j: int) -> int {
    if j + 1 < bs.len() {
        bs[j + 1]
    } else {
        n
    }
}

/// The text of line `j`: its words each followed by a space, except that the
/// last line loses its final space.
pub open spec fn line_text(words: Seq<Seq<char>>, bs: Seq<int>, j: int) -> Seq<char> {
    let t = padded(words, bs[j], line_end(bs, words.len() as int, j));
    if j + 1 < bs.len() || t.len() == 0 {
        t
    } else {
        t.drop_last()
    }
}

/// The lines into which `words`, of widths `ws`, are wrapped at `max` pixels.
pub open spec fn wrap_lines(words: Seq<Seq<char>>, ws: Seq<int>, max: int) -> Seq<Seq<char>> {
    let bs = breaks(ws, max).0;
    Seq::new(bs.len(), |j: int| line_text(words, bs, j))
}

/// Wraps `words`, whose measured widths are `widths`, into lines of at most
/// `max_width` pixels where the words allow it. A word is never split: one
/// wider than the line stands on a line of its own.
pub fn wrap_words(words: &Vec<String>, widths: &Vec<u32>, max_width: u32) -> (r: Vec<String>)
    requires
        words.len() == widths.len(),
    ensures
        views(r@) == wrap_lines(views(words@), ints(widths@), max_width as int),
        r.len() >= 1,
{
    let ghost ws = ints(widths@);
    let ghost ww = views(words@);
    let ghost max = max_width as int;
    let n = words.len();
    let mut lines: Vec<String> = Vec::new();
    let mut line = String::new();
    let mut rem: u32 = max_width;
    let ghost mut bs: Seq<int> = seq![0];
    let mut i: usize = 0;
    proof {
        assert(ws.take(0) =~= Seq::<int>::empty());
        assert(views(lines@) =~= Seq::new((bs.len() - 1) as nat, |j: int| line_text(ww, bs, j)));
    }
    while i < n
        invariant
            n == words.len() == widths.len(),
            ws == ints(widths@),
            ww == views(words@),
            max == max_width as int,
            i <= n,
            breaks(ws.take(i as int), max) == (bs, rem as int),
            bs.len() >= 1,
            bs.last() <= i,
            views(lines@) == Seq::new((bs.len() - 1) as nat, |j: int| line_text(ww, bs, j)),
            line@ == padded(ww, bs.last(), i as int),
        decreases n - i,
    {
        proof {
            reveal_strlit(" ");
            assert(ws.take(i + 1).drop_last() =~= ws.take(i as int));
        }
        let w = widths[i];
        if w < rem {
            line.append(words[i].as_str());
            line.append(" ");
            if w as u64 + PADDING as u64 >= rem as u64 {
                rem = 0;
            } else {
                rem = rem - w - PADDING;
            }
        } else {
            let ghost before = lines@;
            let ghost old_bs = bs;
            let ghost old_line = line@;
            lines.push(line);
            line = String::new();
            line.append(words[i].as_str());
            line.append(" ");
            if w as u64 + PADDING as u64 >= max_width as u64 {
                rem = 0;
            } else {
                rem = max_width - w - PADDING;
            }
            proof {
                bs = bs.push(i as int);
                assert(padded(ww, i as int, i as int) == Seq::<char>::empty());
                assert(views(before).len() == before.len());
                assert(views(before).len() == old_bs.len() - 1);
                assert(lines@.len() == before.len() + 1);
                assert(lines@[before.len() as int]@ == old_line);
                assert(views(lines@).len() == lines@.len());
                assert forall|j: int| 0 <= j < bs.len() - 1 implies
                    views(lines@)[j] == line_text(ww, bs, j) by {
                    if j < old_bs.len() - 1 {
                        assert(views(before)[j] == line_text(ww, old_bs, j));
                        assert(line_end(bs, n as int, j) == line_end(old_bs, n as int, j));
                    } else {
                        assert(views(lines@)[j] == old_line);
                    }
                }
                assert(views(lines@) =~= Seq::new((bs.len() - 1) as nat, |j: int| line_text(ww, bs, j)));
            }
        }
        proof {
            assert(ww[i as int] == words@[i as int]@);
            assert(padded(ww, bs.last(), i + 1) == padded(ww, bs.last(), i as int) + ww[i as int] + seq![' ']);
            assert(line@ =~= padded(ww, bs.last(), i + 1));
        }
        i = i + 1;
    }
    proof {
        assert(ws.take(n as int) =~= ws);
    }
    let k = line.as_str().unicode_len();
    let last = if k > 0 {
        line.as_str().substring_char(0, k - 1).to_owned()
    } else {
        line
    };
    let ghost before = lines@;
    lines.push(last);
    proof {
        let full = wrap_lines(ww, ws, max);
        assert(views(before).len() == before.len() == bs.len() - 1);
        assert(lines@.len() == before.len() + 1);
        assert(views(lines@).len() == lines@.len());
        assert(lines@[before.len() as int]@ == last@);
        assert forall|j: int| 0 <= j < full.len() implies views(lines@)[j] == full[j] by {
            if j < bs.len() - 1 {
                assert(views(before)[j] == line_text(ww, bs, j));
            } else {
                assert(views(lines@)[j] == last@);
                assert(line_end(bs, n as int, j) == n);
            }
        }
        assert(views(lines@) =~= full);
    }
    lines
}

} // verus!
