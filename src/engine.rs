//! Greedy, white-space delimited word wrapping.
use vstd::prelude::*;
use crate::metrics::{GlyphMetrics, char_width, text_width, lemma_text_width_bounds, lemma_text_width_concat, measure};
use crate::words::{char_seqs, join, split_words, words};

verus! {

/// Packs the words `ws` into lines, greedily: a word goes on the current line
/// when the line, with the word appended after one space, is at most `max`
/// wide; else it starts a new line. The first word of a line is placed
/// whatever its width. Each line is given as its sequence of words.
pub open spec fn pack(m: Map<char, u16>, max: int, ws: Seq<Seq<char>>) -> Seq<Seq<Seq<char>>>
    decreases ws.len(),
{
    if ws.len() == 0 {
        seq![]
    } else {
        let g = pack(m, max, ws.drop_last());
        let w = ws.last();
        if g.len() == 0 {
            seq![seq![w]]
        } else if text_width(m, join(g.last().push(w))) <= max {
            g.update(g.len() - 1, g.last().push(w))
        } else {
            g.push(seq![w])
        }
    }
}

/// The text of each line: its words joined by single spaces.
pub open spec fn line_texts(g: Seq<Seq<Seq<char>>>) -> Seq<Seq<char>> {
    g.map_values(|l: Seq<Seq<char>>| join(l))
}

/// The lines that `text` wraps into at width `max`.
pub open spec fn wrap_lines(m: Map<char, u16>, max: int, text: Seq<char>) -> Seq<Seq<char>> {
    line_texts(pack(m, max, words(text)))
}

/// The character sequences held by a sequence of strings.
pub open spec fn string_seqs(v: Seq<String>) -> Seq<Seq<char>> {
    v.map_values(|s: String| s@)
}

/// Relies on `String::from_iter` over chars: the string of those characters,
/// in order.
#[verifier::external_body]
fn string_from_chars(v: &Vec<char>) -> (r: String)
    ensures
        r@ == v@,
{
    String::from_iter(v.iter())
}

/// Joining a line that has words with one more word.
proof fn lemma_join_push(line: Seq<Seq<char>>, w: Seq<char>)
    requires
        line.len() > 0,
    ensures
        join(line.push(w)) == join(line) + seq![' '] + w,
{
    assert(line.push(w).drop_last() =~= line);
}

/// The width of a single character.
proof fn lemma_width_one(m: Map<char, u16>, c: char)
    ensures
        text_width(m, seq![c]) == char_width(m, c),
{
    assert(seq![c].drop_last() =~= Seq::<char>::empty());
    assert(seq![c].last() == c);
    assert(text_width(m, Seq::<char>::empty()) == 0);
}

/// Emitting the text of the last line after those of the lines before it.
proof fn lemma_texts_push(out: Seq<String>, s: String, g: Seq<Seq<Seq<char>>>)
    requires
        g.len() > 0,
        string_seqs(out) == line_texts(g.drop_last()),
        s@ == join(g.last()),
    ensures
        string_seqs(out.push(s)) == line_texts(g),
{
    assert(string_seqs(out).len() == g.len() - 1);
    assert forall|k: int| 0 <= k < g.len() implies string_seqs(out.push(s))[k] == line_texts(
        g,
    )[k] by {
        if k < g.len() - 1 {
            assert(string_seqs(out)[k] == line_texts(g.drop_last())[k]);
            assert(out.push(s)[k] == out[k]);
        }
    }
    assert(string_seqs(out.push(s)) =~= line_texts(g));
}

/// Appends the characters of `src` to `dst`.
fn append_chars(dst: &mut Vec<char>, src: &Vec<char>)
    ensures
        final(dst)@ == old(dst)@ + src@,
{
    let mut j: usize = 0;
    while j < src.len()
        invariant
            j <= src.len(),
            dst@ == old(dst)@ + src@.subrange(0, j as int),
        decreases src.len() - j,
    {
        dst.push(src[j]);
        j = j + 1;
        assert(dst@ =~= old(dst)@ + src@.subrange(0, j as int));
    }
    assert(src@.subrange(0, j as int) =~= src@);
}

/// Wraps `text` at `max_width` font units, measured with `metrics`.
pub fn wrap_text<M: GlyphMetrics>(metrics: &M, max_width: u32, text: &str) -> (r: Vec<String>)
    ensures
        string_seqs(r@) == wrap_lines(metrics.advances(), max_width as int, text@),
{
    let ghost m = metrics.advances();
    let ghost max = max_width as int;
    let mut chars: Vec<char> = Vec::new();
    for c in it: text.chars()
        invariant
            chars@ == it.seq().subrange(0, it.index() as int),
    {
        chars.push(c);
    }
    assert(chars@ == text@);
    let ws = split_words(&chars);
    let ghost wsv = char_seqs(ws@);
    let space: u128 = match metrics.advance(' ') {
        Some(a) => a as u128,
        None => 0,
    };
    proof {
        lemma_width_one(m, ' ');
    }
    let mut out: Vec<String> = Vec::new();
    let mut cur: Vec<char> = Vec::new();
    let mut cur_w: u128 = 0;
    let ghost mut groups: Seq<Seq<Seq<char>>> = seq![];
    let mut i: usize = 0;
    while i < ws.len()
        invariant
            i <= ws.len(),
            wsv == char_seqs(ws@),
            m == metrics.advances(),
            max == max_width as int,
            space == char_width(m, ' '),
            space == text_width(m, seq![' ']),
            groups == pack(m, max, wsv.subrange(0, i as int)),
            i == 0 ==> groups.len() == 0 && out.len() == 0,
            i > 0 ==> groups.len() > 0 && groups.last().len() > 0,
            i > 0 ==> string_seqs(out@) == line_texts(groups.drop_last()),
            i > 0 ==> cur@ == join(groups.last()),
            cur_w == text_width(m, cur@),
            cur_w <= 65535 * (usize::MAX as int) + u32::MAX,
        decreases ws.len() - i,
    {
        let w = &ws[i];
        let ww = measure(metrics, w);
        let wl = w.len();
        proof {
            lemma_text_width_bounds(m, w@);
            assert(ww <= 65535 * (usize::MAX as int)) by (nonlinear_arith)
                requires
                    ww <= 65535 * w@.len(),
                    w@.len() == wl,
            ;
            assert(wsv.subrange(0, i + 1).drop_last() =~= wsv.subrange(0, i as int));
            assert(wsv.subrange(0, i + 1).last() == w@);
        }
        if i == 0 {
            cur = w.clone();
            cur_w = ww;
            assert(cur@ == w@);
            proof {
                groups = seq![seq![w@]];
                assert(wsv.subrange(0, 0) =~= Seq::<Seq<char>>::empty());
            }
        } else if cur_w + space + ww <= max_width as u128 {
            proof {
                lemma_join_push(groups.last(), w@);
                lemma_text_width_concat(m, cur@, seq![' ']);
                lemma_text_width_concat(m, cur@ + seq![' '], w@);
                let old_groups = groups;
                groups = groups.update(groups.len() - 1, groups.last().push(w@));
                assert(groups.drop_last() =~= old_groups.drop_last());
            }
            let ghost old_cur = cur@;
            cur.push(' ');
            let ghost base = cur@;
            assert(base =~= old_cur + seq![' ']);
            append_chars(&mut cur, w);
            cur_w = cur_w + space + ww;
        } else {
            proof {
                lemma_join_push(groups.last(), w@);
                lemma_text_width_concat(m, cur@, seq![' ']);
                lemma_text_width_concat(m, cur@ + seq![' '], w@);
            }
            let line = string_from_chars(&cur);
            let ghost before = out@;
            out.push(line);
            proof {
                lemma_texts_push(before, line, groups);
                let old_groups = groups;
                groups = groups.push(seq![w@]);
                assert(groups.drop_last() =~= old_groups);
            }
            cur = w.clone();
            cur_w = ww;
            assert(cur@ == w@);
        }
        i = i + 1;
    }
    assert(wsv.subrange(0, i as int) =~= wsv);
    if i > 0 {
        let line = string_from_chars(&cur);
        let ghost before = out@;
        out.push(line);
        proof {
            lemma_texts_push(before, line, groups);
        }
    } else {
        assert(string_seqs(out@) =~= line_texts(groups));
    }
    out
}

} // verus!
