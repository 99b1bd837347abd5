//! What holds of every wrap: blank text, text that fits, words wider than
//! the line, re-wrapping, and wider lines.
use vstd::prelude::*;
use crate::engine::{line_texts, pack, wrap_lines};
use crate::metrics::{char_width, lemma_text_width_bounds, lemma_text_width_concat, text_width};
use crate::words::{is_white_space, is_word, join, normalized, words};

verus! {

/// Text made only of white space has no words.
proof fn lemma_blank_words(s: Seq<char>)
    requires
        forall|i: int| 0 <= i < s.len() ==> is_white_space(#[trigger] s[i]),
    ensures
        words(s) == Seq::<Seq<char>>::empty(),
    decreases s.len(),
{
    if s.len() > 0 {
        lemma_blank_words(s.drop_last());
        assert(is_white_space(s[s.len() - 1]));
    }
}

/// Empty text, or text of white space alone, wraps into no lines at all.
pub proof fn lemma_blank_text_no_lines(m: Map<char, u16>, max: int, text: Seq<char>)
    requires
        forall|i: int| 0 <= i < text.len() ==> is_white_space(#[trigger] text[i]),
    ensures
        wrap_lines(m, max, text) == Seq::<Seq<char>>::empty(),
{
    lemma_blank_words(text);
    assert(line_texts(pack(m, max, words(text))) =~= Seq::<Seq<char>>::empty());
}

/// Joining two non-empty runs of words puts one space between their texts.
pub proof fn lemma_join_concat(x: Seq<Seq<char>>, y: Seq<Seq<char>>)
    requires
        x.len() > 0,
        y.len() > 0,
    ensures
        join(x + y) == join(x) + seq![' '] + join(y),
    decreases y.len(),
{
    if y.len() == 1 {
        assert((x + y).drop_last() =~= x);
    } else {
        assert((x + y).drop_last() =~= x + y.drop_last());
        lemma_join_concat(x, y.drop_last());
        assert(join(x + y) =~= join(x) + seq![' '] + join(y));
    }
}

/// Words that fit on one line together are packed onto a single line.
proof fn lemma_pack_fitting(m: Map<char, u16>, max: int, ws: Seq<Seq<char>>)
    requires
        ws.len() > 0,
        text_width(m, join(ws)) <= max,
    ensures
        pack(m, max, ws) == seq![ws],
    decreases ws.len(),
{
    if ws.len() == 1 {
        assert(ws.drop_last() =~= Seq::<Seq<char>>::empty());
        assert(pack(m, max, ws.drop_last()).len() == 0);
        assert(seq![ws.last()] =~= ws);
    } else {
        let p = ws.drop_last();
        lemma_text_width_concat(m, join(p), seq![' ']);
        lemma_text_width_concat(m, join(p) + seq![' '], ws.last());
        lemma_text_width_bounds(m, seq![' ']);
        lemma_text_width_bounds(m, ws.last());
        lemma_pack_fitting(m, max, p);
        let g = pack(m, max, p);
        assert(g.last() == p);
        assert(g.last().push(ws.last()) =~= ws);
        assert(g.update(0, ws) =~= seq![ws]);
    }
}

/// Text whose words, joined by single spaces, fit within `max` wraps into
/// exactly one line: the text with its white space collapsed.
pub proof fn lemma_fitting_text_one_line(m: Map<char, u16>, max: int, text: Seq<char>)
    requires
        words(text).len() > 0,
        text_width(m, normalized(text)) <= max,
    ensures
        wrap_lines(m, max, text) == seq![normalized(text)],
{
    lemma_pack_fitting(m, max, words(text));
    assert(line_texts(seq![words(text)]) =~= seq![normalized(text)]);
}

/// A word wider than `max` is a line of its own in the packing.
proof fn lemma_pack_wide_word(m: Map<char, u16>, max: int, ws: Seq<Seq<char>>, k: int)
    requires
        0 <= k < ws.len(),
        text_width(m, ws[k]) > max,
    ensures
        exists|j: int| 0 <= j < pack(m, max, ws).len() && #[trigger] pack(m, max, ws)[j] == seq![ws[k]],
    decreases ws.len(),
{
    let p = ws.drop_last();
    let g = pack(m, max, p);
    let w = ws.last();
    if k == ws.len() - 1 {
        if g.len() == 0 {
            assert(pack(m, max, ws)[0] == seq![ws[k]]);
        } else {
            assert(g.last().len() > 0 ==> join(g.last().push(w)) == join(g.last()) + seq![' '] + w)
                by {
                if g.last().len() > 0 {
                    assert(g.last().push(w).drop_last() =~= g.last());
                }
            }
            assert(text_width(m, join(g.last().push(w))) > max) by {
                if g.last().len() > 0 {
                    lemma_text_width_concat(m, join(g.last()), seq![' ']);
                    lemma_text_width_concat(m, join(g.last()) + seq![' '], w);
                    lemma_text_width_bounds(m, join(g.last()));
                    lemma_text_width_bounds(m, seq![' ']);
                } else {
                    assert(g.last().push(w) =~= seq![w]);
                }
            }
            assert(pack(m, max, ws)[g.len() as int] == seq![ws[k]]);
        }
    } else {
        assert(p[k] == ws[k]);
        lemma_pack_wide_word(m, max, p, k);
        let j = choose|j: int| 0 <= j < g.len() && #[trigger] g[j] == seq![ws[k]];
        if g.len() > 0 && j == g.len() - 1 {
            assert(join(g.last().push(w)) == join(g.last()) + seq![' '] + w) by {
                assert(g.last().push(w).drop_last() =~= g.last());
            }
            lemma_text_width_concat(m, join(g.last()), seq![' ']);
            lemma_text_width_concat(m, join(g.last()) + seq![' '], w);
            lemma_text_width_bounds(m, w);
            lemma_text_width_bounds(m, seq![' ']);
        }
        assert(pack(m, max, ws)[j] == seq![ws[k]]);
    }
}

/// A word wider than `max` is never split or cut: it makes up a whole line.
pub proof fn lemma_wide_word_own_line(m: Map<char, u16>, max: int, text: Seq<char>, k: int)
    requires
        0 <= k < words(text).len(),
        text_width(m, words(text)[k]) > max,
    ensures
        exists|j: int|
            0 <= j < wrap_lines(m, max, text).len() && #[trigger] wrap_lines(m, max, text)[j]
                == words(text)[k],
{
    let ws = words(text);
    lemma_pack_wide_word(m, max, ws, k);
    let j = choose|j: int| 0 <= j < pack(m, max, ws).len() && #[trigger] pack(m, max, ws)[j] == seq![ws[k]];
    assert(wrap_lines(m, max, text)[j] == join(seq![ws[k]]));
}

/// Every word of a text is non-empty and holds no white space.
pub proof fn lemma_words_are_words(s: Seq<char>)
    ensures
        forall|i: int| 0 <= i < words(s).len() ==> is_word(#[trigger] words(s)[i]),
    decreases s.len(),
{
    if s.len() > 0 {
        let p = s.drop_last();
        lemma_words_are_words(p);
        let ws = words(p);
        let c = s.last();
        if !is_white_space(c) {
            if p.len() > 0 && !is_white_space(p.last()) && ws.len() > 0 {
                let nw = ws.last().push(c);
                assert(is_word(ws[ws.len() - 1]));
                assert(is_word(nw)) by {
                    assert forall|i: int| 0 <= i < nw.len() implies !is_white_space(#[trigger] nw[i]) by {
                        if i < nw.len() - 1 {
                            assert(nw[i] == ws[ws.len() - 1][i]);
                        }
                    }
                }
                assert forall|i: int| 0 <= i < words(s).len() implies is_word(#[trigger] words(s)[i]) by {
                    if i < ws.len() - 1 {
                        assert(words(s)[i] == ws[i]);
                    }
                }
            } else {
                assert(is_word(seq![c]));
                assert forall|i: int| 0 <= i < words(s).len() implies is_word(#[trigger] words(s)[i]) by {
                    if i < ws.len() {
                        assert(words(s)[i] == ws[i]);
                    }
                }
            }
        }
    }
}

/// After text that ends in white space, a word is read as a word of its own.
proof fn lemma_words_after_space(t: Seq<char>, w: Seq<char>, k: int)
    requires
        t.len() > 0,
        is_white_space(t.last()),
        is_word(w),
        1 <= k <= w.len(),
    ensures
        words(t + w.subrange(0, k)) == words(t).push(w.subrange(0, k)),
    decreases k,
{
    let s = t + w.subrange(0, k);
    assert(s.last() == w[k - 1]);
    if k == 1 {
        assert(s.drop_last() =~= t);
        assert(w.subrange(0, 1) =~= seq![w[0]]);
    } else {
        assert(s.drop_last() =~= t + w.subrange(0, k - 1));
        lemma_words_after_space(t, w, k - 1);
        assert(s.drop_last().last() == w[k - 2]);
        assert(words(t).push(w.subrange(0, k - 1)).last().push(w[k - 1]) =~= w.subrange(0, k));
        assert(words(t).push(w.subrange(0, k - 1)).update(words(t).len() as int, w.subrange(0, k))
            =~= words(t).push(w.subrange(0, k)));
    }
}

/// A word read alone is one word.
proof fn lemma_words_of_word(w: Seq<char>, k: int)
    requires
        is_word(w),
        1 <= k <= w.len(),
    ensures
        words(w.subrange(0, k)) == seq![w.subrange(0, k)],
    decreases k,
{
    let s = w.subrange(0, k);
    assert(s.last() == w[k - 1]);
    assert(!is_white_space(w[k - 1]));
    if k == 1 {
        assert(s.drop_last() =~= Seq::<char>::empty());
        assert(words(s.drop_last()) == Seq::<Seq<char>>::empty());
        assert(s =~= seq![w[0]]);
    } else {
        assert(s.drop_last() =~= w.subrange(0, k - 1));
        lemma_words_of_word(w, k - 1);
        assert(s.drop_last().last() == w[k - 2]);
        assert(!is_white_space(w[k - 2]));
        assert(seq![w.subrange(0, k - 1)].last().push(w[k - 1]) =~= s);
        assert(seq![w.subrange(0, k - 1)].update(0, s) =~= seq![s]);
    }
}

/// Words joined by single spaces read back as the same words.
pub proof fn lemma_words_of_join(ws: Seq<Seq<char>>)
    requires
        forall|i: int| 0 <= i < ws.len() ==> is_word(#[trigger] ws[i]),
    ensures
        words(join(ws)) == ws,
    decreases ws.len(),
{
    if ws.len() == 0 {
        assert(words(join(ws)) =~= ws);
    } else if ws.len() == 1 {
        assert(is_word(ws[0]));
        lemma_words_of_word(ws[0], ws[0].len() as int);
        assert(ws[0].subrange(0, ws[0].len() as int) =~= ws[0]);
        assert(seq![ws[0]] =~= ws);
    } else {
        let p = ws.drop_last();
        let w = ws.last();
        assert(is_word(ws[ws.len() - 1]));
        assert forall|i: int| 0 <= i < p.len() implies is_word(#[trigger] p[i]) by {
            assert(p[i] == ws[i]);
        }
        lemma_words_of_join(p);
        let t = join(p) + seq![' '];
        assert(t.drop_last() =~= join(p));
        assert(t.last() == ' ');
        assert(is_white_space(' '));
        assert(words(t) == words(join(p)));
        lemma_words_after_space(t, w, w.len() as int);
        assert(w.subrange(0, w.len() as int) =~= w);
        assert(p.push(w) =~= ws);
    }
}

/// Extending the last line by a word extends the joined text of all lines
/// by that word after a space.
proof fn lemma_join_extend_last(l: Seq<Seq<char>>, w: Seq<char>)
    requires
        l.len() > 0,
    ensures
        join(l.update(l.len() - 1, l.last() + seq![' '] + w)) == join(l) + seq![' '] + w,
{
    let u = l.update(l.len() - 1, l.last() + seq![' '] + w);
    if l.len() == 1 {
        assert(join(u) =~= join(l) + seq![' '] + w);
    } else {
        assert(u.drop_last() =~= l.drop_last());
        assert(join(u) =~= join(l) + seq![' '] + w);
    }
}

/// The lines of a packing, joined by single spaces, give the words joined
/// by single spaces.
proof fn lemma_join_lines(m: Map<char, u16>, max: int, ws: Seq<Seq<char>>)
    ensures
        join(line_texts(pack(m, max, ws))) == join(ws),
    decreases ws.len(),
{
    if ws.len() == 0 {
    } else {
        let p = ws.drop_last();
        let g = pack(m, max, p);
        let w = ws.last();
        lemma_join_lines(m, max, p);
        if g.len() == 0 {
            assert(p.len() == 0);
            assert(line_texts(pack(m, max, ws)) =~= seq![w]);
            assert(seq![w] =~= ws);
        } else {
            assert(p.len() > 0);
            lemma_last_line(m, max, p);
            assert(g.last().len() > 0);
            assert(g.last().push(w).drop_last() =~= g.last());
            if text_width(m, join(g.last().push(w))) <= max {
                assert(line_texts(pack(m, max, ws)) =~= line_texts(g).update(
                    g.len() - 1,
                    line_texts(g).last() + seq![' '] + w,
                ));
                lemma_join_extend_last(line_texts(g), w);
            } else {
                assert(line_texts(pack(m, max, ws)) =~= line_texts(g).push(w));
                assert(line_texts(g).push(w).drop_last() =~= line_texts(g));
            }
        }
    }
}

/// Re-wrapping the lines of a wrap, joined by single spaces, at the same
/// width gives the same lines.
pub proof fn lemma_rewrap_same_lines(m: Map<char, u16>, max: int, text: Seq<char>)
    ensures
        wrap_lines(m, max, join(wrap_lines(m, max, text))) == wrap_lines(m, max, text),
{
    let ws = words(text);
    lemma_join_lines(m, max, ws);
    lemma_words_are_words(text);
    lemma_words_of_join(ws);
}

/// Where the last line of a packing starts, as an index into the words.
pub open spec fn last_line_start(m: Map<char, u16>, max: int, ws: Seq<Seq<char>>) -> int
    decreases ws.len(),
{
    if ws.len() == 0 {
        0
    } else {
        let g = pack(m, max, ws.drop_last());
        if g.len() == 0 {
            0
        } else if text_width(m, join(g.last().push(ws.last()))) <= max {
            last_line_start(m, max, ws.drop_last())
        } else {
            ws.len() - 1
        }
    }
}

/// The last line of a packing holds the words from its start to the end.
proof fn lemma_last_line(m: Map<char, u16>, max: int, ws: Seq<Seq<char>>)
    requires
        ws.len() > 0,
    ensures
        pack(m, max, ws).len() > 0,
        0 <= last_line_start(m, max, ws) < ws.len(),
        pack(m, max, ws).last() == ws.subrange(last_line_start(m, max, ws), ws.len() as int),
    decreases ws.len(),
{
    let p = ws.drop_last();
    let g = pack(m, max, p);
    if g.len() == 0 {
        if p.len() > 0 {
            lemma_last_line(m, max, p);
        }
        assert(ws.subrange(0, ws.len() as int) =~= seq![ws.last()]);
    } else {
        if p.len() == 0 {
            assert(g.len() == 0);
        }
        lemma_last_line(m, max, p);
        let st = last_line_start(m, max, p);
        assert(g.last().push(ws.last()) =~= ws.subrange(st, ws.len() as int));
        assert(ws.subrange(ws.len() - 1, ws.len() as int) =~= seq![ws.last()]);
    }
}

/// Dropping words from the front of a run of words never widens it.
proof fn lemma_suffix_narrower(m: Map<char, u16>, ws: Seq<Seq<char>>, b: int, a: int)
    requires
        0 <= b <= a < ws.len(),
    ensures
        text_width(m, join(ws.subrange(a, ws.len() as int))) <= text_width(
            m,
            join(ws.subrange(b, ws.len() as int)),
        ),
{
    if b < a {
        let x = ws.subrange(b, a);
        let y = ws.subrange(a, ws.len() as int);
        assert(x + y =~= ws.subrange(b, ws.len() as int));
        lemma_join_concat(x, y);
        lemma_text_width_concat(m, join(x), seq![' ']);
        lemma_text_width_concat(m, join(x) + seq![' '], join(y));
        lemma_text_width_bounds(m, join(x));
        lemma_text_width_bounds(m, seq![' ']);
    }
}

/// With a wider limit, the packing is never behind: it has fewer lines, or
/// as many with its last line starting no earlier.
proof fn lemma_pack_ahead(m: Map<char, u16>, max1: int, max2: int, ws: Seq<Seq<char>>)
    requires
        max1 <= max2,
    ensures
        pack(m, max2, ws).len() < pack(m, max1, ws).len() || (pack(m, max2, ws).len() == pack(
            m,
            max1,
            ws,
        ).len() && last_line_start(m, max2, ws) >= last_line_start(m, max1, ws)),
    decreases ws.len(),
{
    if ws.len() > 0 {
        let p = ws.drop_last();
        let w = ws.last();
        lemma_pack_ahead(m, max1, max2, p);
        if p.len() > 0 {
            lemma_last_line(m, max1, p);
            lemma_last_line(m, max2, p);
            let g1 = pack(m, max1, p);
            let g2 = pack(m, max2, p);
            let s1 = last_line_start(m, max1, p);
            let s2 = last_line_start(m, max2, p);
            assert(g1.last().push(w) =~= ws.subrange(s1, ws.len() as int));
            assert(g2.last().push(w) =~= ws.subrange(s2, ws.len() as int));
            if g2.len() == g1.len() {
                lemma_suffix_narrower(m, ws, s1, s2);
            }
        }
    }
}

/// A wider line never gives more lines.
pub proof fn lemma_wider_fewer_lines(m: Map<char, u16>, max1: int, max2: int, text: Seq<char>)
    requires
        max1 <= max2,
    ensures
        wrap_lines(m, max2, text).len() <= wrap_lines(m, max1, text).len(),
{
    lemma_pack_ahead(m, max1, max2, words(text));
}

} // verus!
