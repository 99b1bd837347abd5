//! Splitting text into words: maximal runs of characters that are not
//! white space.
use vstd::prelude::*;

verus! {

/// The Unicode `White_Space` property, as `char::is_whitespace` reports it.
pub open spec fn is_white_space(c: char) -> bool {
    let u = c as u32;
    ||| 0x09 <= u <= 0x0d
    ||| u == 0x20
    ||| u == 0x85
    ||| u == 0xa0
    ||| u == 0x1680
    ||| 0x2000 <= u <= 0x200a
    ||| u == 0x2028
    ||| u == 0x2029
    ||| u == 0x202f
    ||| u == 0x205f
    ||| u == 0x3000
}

/// Whether `c` is a break opportunity between words.
pub fn white_space(c: char) -> (r: bool)
    ensures
        r == is_white_space(c),
{
    let u = c as u32;
    (0x09 <= u && u <= 0x0d) || u == 0x20 || u == 0x85 || u == 0xa0 || u == 0x1680 || (0x2000
        <= u && u <= 0x200a) || u == 0x2028 || u == 0x2029 || u == 0x202f || u == 0x205f || u
        == 0x3000
}

/// A word: a non-empty run of characters none of which is white space.
pub open spec fn is_word(w: Seq<char>) -> bool {
    &&& w.len() > 0
    &&& forall|i: int| 0 <= i < w.len() ==> !is_white_space(#[trigger] w[i])
}

/// The words of `s`, in reading order: its maximal runs of characters that
/// are not white space. Defined by reading `s` from the left, one character
/// at a time.
pub open spec fn words(s: Seq<char>) -> Seq<Seq<char>>
    decreases s.len(),
{
    if s.len() == 0 {
        seq![]
    } else {
        let p = s.drop_last();
        let c = s.last();
        let ws = words(p);
        if is_white_space(c) {
            ws
        } else if p.len() > 0 && !is_white_space(p.last()) && ws.len() > 0 {
            ws.update(ws.len() - 1, ws.last().push(c))
        } else {
            ws.push(seq![c])
        }
    }
}

/// The words `ws` joined by single spaces.
pub open spec fn join(ws: Seq<Seq<char>>) -> Seq<char>
    decreases ws.len(),
{
    if ws.len() == 0 {
        seq![]
    } else if ws.len() == 1 {
        ws[0]
    } else {
        join(ws.drop_last()) + seq![' '] + ws.last()
    }
}

/// `s` with its white space collapsed: its words joined by single spaces.
pub open spec fn normalized(s: Seq<char>) -> Seq<char> {
    join(words(s))
}

/// The character sequences held by a sequence of vectors.
pub open spec fn char_seqs(v: Seq<Vec<char>>) -> Seq<Seq<char>> {
    v.map_values(|w: Vec<char>| w@)
}

/// Splits `chars` into its words.
pub fn split_words(chars: &Vec<char>) -> (r: Vec<Vec<char>>)
    ensures
        char_seqs(r@) == words(chars@),
{
    let mut out: Vec<Vec<char>> = Vec::new();
    let mut cur: Vec<char> = Vec::new();
    let mut i: usize = 0;
    while i < chars.len()
        invariant
            i <= chars.len(),
            words(chars@.subrange(0, i as int)) == if cur.len() > 0 {
                char_seqs(out@).push(cur@)
            } else {
                char_seqs(out@)
            },
            cur.len() > 0 <==> (i > 0 && !is_white_space(chars@[i - 1])),
        decreases chars.len() - i,
    {
        let c = chars[i];
        let ghost before = char_seqs(out@);
        let ghost p = chars@.subrange(0, i as int);
        assert(chars@.subrange(0, i + 1).drop_last() == p);
        assert(chars@.subrange(0, i + 1).last() == c);
        if white_space(c) {
            if cur.len() > 0 {
                let ghost w = cur@;
                out.push(cur);
                cur = Vec::new();
                assert(char_seqs(out@) =~= before.push(w));
            }
        } else {
            if cur.len() > 0 {
                assert(p.last() == chars@[i - 1]);
            }
            cur.push(c);
            if cur.len() == 1 {
                assert(cur@ == seq![c]);
            }
        }
        i = i + 1;
    }
    assert(chars@.subrange(0, i as int) == chars@);
    if cur.len() > 0 {
        let ghost before = char_seqs(out@);
        out.push(cur);
        assert(char_seqs(out@) =~= before.push(cur@));
    }
    out
}

} // verus!
