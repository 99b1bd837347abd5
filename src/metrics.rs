//! Glyph advance widths and the width of a run of text.
use vstd::prelude::*;

verus! {

/// The advance of `c` in the table `m`, if the table has one.
pub open spec fn advance_in(m: Map<char, u16>, c: char) -> Option<u16> {
    if m.contains_key(c) {
        Some(m[c])
    } else {
        None
    }
}

/// The width that `c` takes up: its advance, or nothing where none is known.
pub open spec fn char_width(m: Map<char, u16>, c: char) -> int {
    if m.contains_key(c) {
        m[c] as int
    } else {
        0
    }
}

/// The width of `s`: the sum of the widths of its characters.
pub open spec fn text_width(m: Map<char, u16>, s: Seq<char>) -> int
    decreases s.len(),
{
    if s.len() == 0 {
        0
    } else {
        text_width(m, s.drop_last()) + char_width(m, s.last())
    }
}

/// Widths add up over concatenation.
pub proof fn lemma_text_width_concat(m: Map<char, u16>, a: Seq<char>, b: Seq<char>)
    ensures
        text_width(m, a + b) == text_width(m, a) + text_width(m, b),
    decreases b.len(),
{
    if b.len() == 0 {
        assert(a + b =~= a);
    } else {
        assert((a + b).drop_last() =~= a + b.drop_last());
        assert((a + b).last() == b.last());
        lemma_text_width_concat(m, a, b.drop_last());
    }
}

/// A width is never negative, and at most the largest advance per character.
pub proof fn lemma_text_width_bounds(m: Map<char, u16>, s: Seq<char>)
    ensures
        0 <= text_width(m, s) <= 65535 * s.len(),
    decreases s.len(),
{
    if s.len() > 0 {
        lemma_text_width_bounds(m, s.drop_last());
    }
}

/// A source of glyph advance widths, in font design units.
pub trait GlyphMetrics {
    /// The advance of each character that has a glyph.
    spec fn advances(&self) -> Map<char, u16>;

    /// The advance of `c`, or `None` where there is no glyph for it.
    fn advance(&self, c: char) -> (r: Option<u16>)
        ensures
            r == advance_in(self.advances(), c),
    ;
}

/// The width of `s`, characters without a glyph counting as zero.
pub fn measure<M: GlyphMetrics>(metrics: &M, s: &Vec<char>) -> (r: u128)
    ensures
        r == text_width(metrics.advances(), s@),
{
    let mut total: u128 = 0;
    let mut i: usize = 0;
    while i < s.len()
        invariant
            i <= s.len(),
            total == text_width(metrics.advances(), s@.subrange(0, i as int)),
        decreases s.len() - i,
    {
        proof {
            lemma_text_width_bounds(metrics.advances(), s@.subrange(0, i as int));
            assert(s@.subrange(0, i + 1).drop_last() =~= s@.subrange(0, i as int));
        }
        let w: u128 = match metrics.advance(s[i]) {
            Some(a) => a as u128,
            None => 0,
        };
        total = total + w;
        i = i + 1;
    }
    assert(s@.subrange(0, i as int) =~= s@);
    total
}

/// The first advance that `entries` gives for `c`.
pub open spec fn first_entry(entries: Seq<(char, u16)>, c: char) -> Option<u16>
    decreases entries.len(),
{
    if entries.len() == 0 {
        None
    } else if entries[0].0 == c {
        Some(entries[0].1)
    } else {
        first_entry(entries.drop_first(), c)
    }
}

/// The advances that a list of entries gives, the first entry for a
/// character taking precedence.
pub open spec fn table_advances(entries: Seq<(char, u16)>) -> Map<char, u16> {
    Map::new(|c: char| first_entry(entries, c) is Some, |c: char| first_entry(entries, c)->Some_0)
}

/// Advance widths held in memory as a list of (character, advance) entries.
pub struct WidthTable {
    entries: Vec<(char, u16)>,
}

impl WidthTable {
    /// A table over `entries`; where a character occurs twice, its first
    /// entry counts.
    pub fn new(entries: Vec<(char, u16)>) -> (r: WidthTable)
        ensures
            r.advances() == table_advances(entries@),
    {
        WidthTable { entries }
    }
}

impl GlyphMetrics for WidthTable {
    closed spec fn advances(&self) -> Map<char, u16> {
        table_advances(self.entries@)
    }

    fn advance(&self, c: char) -> (r: Option<u16>) {
        let mut i: usize = 0;
        assert(self.entries@.subrange(0, self.entries.len() as int) =~= self.entries@);
        while i < self.entries.len()
            invariant
                i <= self.entries.len(),
                first_entry(self.entries@, c) == first_entry(
                    self.entries@.subrange(i as int, self.entries.len() as int),
                    c,
                ),
            decreases self.entries.len() - i,
        {
            let ghost rest = self.entries@.subrange(i as int, self.entries.len() as int);
            assert(rest.drop_first() =~= self.entries@.subrange(i + 1, self.entries.len() as int));
            let (k, a) = self.entries[i];
            if k == c {
                return Some(a);
            }
            i = i + 1;
        }
        None
    }
}

} // verus!
