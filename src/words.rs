//! Splitting caption text on single spaces, and joining pieces back.
use vstd::prelude::*;

verus! {

/// The character views of a sequence of strings.
pub open spec fn views(v: Seq<String>) -> Seq<Seq<char>> {
    v.map_values(|s: String| s@)
}

/// The pieces of `s` between single spaces, as `str::split(' ')` gives them:
/// one more piece than there are spaces, empty pieces kept.
pub open spec fn words_of(s: Seq<char>) -> Seq<Seq<char>>
    decreases s.len(),
{
    if s.len() == 0 {
        seq![Seq::empty()]
    } else {
        let w = words_of(s.drop_last());
        if s.last() == ' ' {
            w.push(Seq::empty())
        } else {
            w.update(w.len() - 1, w.last().push(s.last()))
        }
    }
}

/// The pieces laid end to end with one space between neighbours.
pub open spec fn joined(parts: Seq<Seq<char>>) -> Seq<char>
    decreases parts.len(),
{
    if parts.len() == 0 {
        Seq::empty()
    } else if parts.len() == 1 {
        parts[0]
    } else {
        joined(parts.drop_last()) + seq![' '] + parts.last()
    }
}

pub proof fn lemma_words_of_len(s: Seq<char>)
    ensures
        words_of(s).len() >= 1,
    decreases s.len(),
{
    if s.len() > 0 {
        lemma_words_of_len(s.drop_last());
    }
}

/// Splitting on spaces and joining with spaces gives the text back.
pub proof fn lemma_join_words(s: Seq<char>)
    ensures
        joined(words_of(s)) == s,
    decreases s.len(),
{
    if s.len() > 0 {
        let p = s.drop_last();
        lemma_join_words(p);
        lemma_words_of_len(p);
        let w = words_of(p);
        if s.last() == ' ' {
            let w2 = w.push(Seq::<char>::empty());
            assert(w2.drop_last() == w);
            assert(joined(w2) == joined(w) + seq![' '] + Seq::<char>::empty());
            assert(joined(w2) =~= s);
        } else {
            let w2 = w.update(w.len() - 1, w.last().push(s.last()));
            if w.len() == 1 {
                assert(joined(w) == w[0]);
                assert(w2.len() == 1);
                assert(joined(w2) == w2[0]);
                assert(s =~= p.push(s.last()));
            } else {
                assert(w2.drop_last() =~= w.drop_last());
                assert(joined(w) == joined(w.drop_last()) + seq![' '] + w.last());
                assert(joined(w2) == joined(w2.drop_last()) + seq![' '] + w2.last());
                assert(w2.last() == w.last().push(s.last()));
                assert(s =~= p.push(s.last()));
                assert(joined(w2) =~= s);
            }
        }
    }
}

/// Splits `text` at every space, keeping empty pieces.
pub fn split_words(text: &str) -> (r: Vec<String>)
    ensures
        views(r@) == words_of(text@),
{
    let n = text.unicode_len();
    let mut words: Vec<String> = Vec::new();
    let mut start: usize = 0;
    let mut i: usize = 0;
    proof {
        assert(text@.take(0) =~= Seq::<char>::empty());
        assert(views(words@).push(text@.subrange(0, 0)) =~= seq![Seq::<char>::empty()]);
    }
    while i < n
        invariant
            n == text@.len(),
            start <= i <= n,
            views(words@).push(text@.subrange(start as int, i as int)) == words_of(text@.take(i as int)),
        decreases n - i,
    {
        let c = text.get_char(i);
        proof {
            assert(text@.take(i + 1).drop_last() =~= text@.take(i as int));
            assert(text@.take(i + 1).last() == c);
        }
        if c == ' ' {
            let ghost before = words@;
            let piece = text.substring_char(start, i).to_owned();
            words.push(piece);
            start = i + 1;
            proof {
                assert(views(words@) =~= views(before).push(piece@));
                assert(text@.subrange(start as int, i + 1) =~= Seq::<char>::empty());
            }
        } else {
            proof {
                assert(text@.subrange(start as int, i + 1) =~= text@.subrange(start as int, i as int).push(c));
            }
        }
        i = i + 1;
    }
    let last = text.substring_char(start, n).to_owned();
    let ghost before = words@;
    words.push(last);
    proof {
        assert(views(words@) =~= views(before).push(last@));
        assert(text@.take(n as int) =~= text@);
    }
    words
}

} // verus!
