//! The layout engine and the renderer's state: per-character styled
//! glyphs, greedy line wrapping under a column budget, and the mapping of
//! the linear cursor to (line, column) coordinates. Terminal writes happen
//! outside; this module only computes what to paint and where.
use vstd::prelude::*;

verus! {

use unicode_width::UnicodeWidthChar;

/// The style a character is painted with, implied by its classification.
#[derive(Clone, Copy, PartialEq, Eq, Structural, Debug)]
pub enum Style {
    Correct,
    Error,
    Extra,
    Empty,
}

/// The columns a character takes on screen; control characters have none.
pub uninterp spec fn width_of(c: char) -> Option<usize>;

/// Relies on unicode_width's `UnicodeWidthChar::width`: the displayed
/// column width of the character, `None` for a control character;
/// printable ASCII is one column wide.
#[verifier::external_body]
fn char_width(c: char) -> (r: Option<usize>)
    ensures
        r == width_of(c),
        (c as u32) >= 0x20 && (c as u32) < 0x7F ==> r == Some(1usize),
{
    c.width()
}

/// Every character of the word has a display width.
pub open spec fn word_renderable(w: Seq<char>) -> bool {
    forall|i: int| 0 <= i < w.len() ==> #[trigger] width_of(w[i]) is Some
}

/// The rendered width of a word's characters, by their display widths.
pub open spec fn word_chars_width(w: Seq<char>) -> int
    decreases w.len(),
{
    if w.len() == 0 {
        0
    } else {
        word_chars_width(w.drop_last()) + (match width_of(w.last()) {
            Some(x) => x as int,
            None => 0,
        })
    }
}

/// The rendered width of a whole word sequence's first `i` words, one
/// separating space after each.
pub open spec fn corpus_budget(ws: Seq<String>, i: int) -> int
    decreases i,
{
    if i <= 0 {
        0
    } else {
        corpus_budget(ws, i - 1) + word_chars_width(ws[i - 1]@) + 1
    }
}

/// One renderable character: the glyph, its display width in columns, and
/// its current style.
#[derive(Clone, Copy, PartialEq, Eq, Debug)]
pub struct Glyph {
    pub ch: char,
    pub width: usize,
    pub style: Style,
}

/// The total display width of a glyph sequence.
pub open spec fn glyphs_width(gs: Seq<Glyph>) -> int
    decreases gs.len(),
{
    if gs.len() == 0 {
        0
    } else {
        glyphs_width(gs.drop_last()) + gs.last().width
    }
}

/// One word under rendering: the fixed target glyphs and the live glyph
/// buffer with its write cursor. Glyphs at or beyond the cursor still hold
/// the untouched target placeholder.
pub struct Word {
    /// The target characters, as placeholder glyphs.
    pub initial: Vec<Glyph>,
    /// The live buffer: confirmed glyphs below `pos`, placeholders above.
    pub chars: Vec<Glyph>,
    /// The write cursor.
    pub pos: usize,
}

impl Word {
    /// Internal consistency: the buffer is exactly as long as the cursor
    /// or the target demands, placeholders fill everything at or beyond
    /// the cursor, and the target glyphs carry the placeholder style.
    pub open spec fn wf(&self) -> bool {
        &&& self.chars@.len() == if self.initial@.len() >= self.pos {
            self.initial@.len()
        } else {
            self.pos as nat
        }
        &&& forall|i: int|
            self.pos <= i < self.chars@.len() ==> #[trigger] self.chars@[i] == self.initial@[i]
        &&& forall|i: int|
            0 <= i < self.initial@.len() ==> (#[trigger] self.initial@[i]).style == Style::Empty
    }

    /// Builds the word for a target string; `None` exactly when some
    /// character has no display width. Every glyph starts as a
    /// placeholder carrying its character's width.
    pub fn from_str(s: &str) -> (r: Option<Word>)
        ensures
            r is Some <==> word_renderable(s@),
            r is Some ==> {
                let w = r->Some_0;
                &&& w.wf()
                &&& w.pos == 0
                &&& w.initial@.len() == s@.len()
                &&& w.chars@ == w.initial@
                &&& forall|i: int|
                    0 <= i < s@.len() ==> (#[trigger] w.initial@[i]).ch == s@[i]
                        && w.initial@[i].width == width_of(s@[i])->Some_0
            },
    {
        let n: usize = s.unicode_len();
        let mut initial: Vec<Glyph> = Vec::new();
        let mut i: usize = 0;
        while i < n
            invariant
                i <= n,
                n == s@.len(),
                initial@.len() == i,
                forall|k: int|
                    0 <= k < i ==> (#[trigger] initial@[k]).ch == s@[k] && initial@[k].style
                        == Style::Empty && width_of(s@[k]) is Some && initial@[k].width
                        == width_of(s@[k])->Some_0,
            decreases n - i,
        {
            let c: char = s.get_char(i);
            let ow: Option<usize> = char_width(c);
            if ow.is_none() {
                return None;
            }
            initial.push(Glyph { ch: c, width: ow.unwrap(), style: Style::Empty });
            i = i + 1;
        }
        let chars: Vec<Glyph> = initial.clone();
        proof {
            assert(chars@ =~= initial@);
            assert forall|j: int| 0 <= j < s@.len() implies #[trigger] width_of(s@[j]) is Some by {
                assert(initial@[j].width == width_of(s@[j])->Some_0);
            }
        }
        Some(Word { initial, chars, pos: 0 })
    }

    /// The width of the word as currently rendered.
    pub fn width(&self) -> (r: usize)
        requires
            self.wf(),
            glyphs_width(self.chars@) <= usize::MAX,
        ensures
            r == glyphs_width(self.chars@),
    {
        let mut total: usize = 0;
        let mut i: usize = 0;
        while i < self.chars.len()
            invariant
                i <= self.chars@.len(),
                total == glyphs_width(self.chars@.subrange(0, i as int)),
                glyphs_width(self.chars@) <= usize::MAX,
            decreases self.chars@.len() - i,
        {
            proof {
                lemma_glyphs_width_prefix(self.chars@, i as int);
                lemma_glyphs_width_prefix_bound(self.chars@, i + 1);
                assert(self.chars@.subrange(0, i + 1).drop_last() =~= self.chars@.subrange(
                    0,
                    i as int,
                ));
            }
            total = total + self.chars[i].width;
            i = i + 1;
        }
        proof {
            assert(self.chars@.subrange(0, self.chars@.len() as int) =~= self.chars@);
        }
        total
    }

    /// The display width of the already-confirmed glyphs: those below the
    /// write cursor.
    pub fn confirmed_width(&self) -> (r: usize)
        requires
            self.wf(),
            glyphs_width(self.chars@) <= usize::MAX,
        ensures
            r == glyphs_width(self.chars@.subrange(0, self.pos as int)),
    {
        let mut total: usize = 0;
        let mut i: usize = 0;
        while i < self.pos
            invariant
                i <= self.pos <= self.chars@.len(),
                total == glyphs_width(self.chars@.subrange(0, i as int)),
                glyphs_width(self.chars@) <= usize::MAX,
            decreases self.pos - i,
        {
            proof {
                lemma_glyphs_width_prefix(self.chars@, i as int);
                lemma_glyphs_width_prefix_bound(self.chars@, i + 1);
                assert(self.chars@.subrange(0, i + 1).drop_last() =~= self.chars@.subrange(
                    0,
                    i as int,
                ));
            }
            total = total + self.chars[i].width;
            i = i + 1;
        }
        total
    }

    /// The last glyph of the buffer, typed or placeholder, if any.
    pub fn last(&self) -> (r: Option<Glyph>)
        ensures
            r == if self.chars@.len() == 0 {
                None::<Glyph>
            } else {
                Some(self.chars@.last())
            },
    {
        if self.chars.len() == 0 {
            None
        } else {
            Some(self.chars[self.chars.len() - 1])
        }
    }

    /// Confirms one typed character at the cursor: overwrites the
    /// placeholder there, or appends beyond the target's end.
    pub fn push(&mut self, g: Glyph)
        requires
            old(self).wf(),
            old(self).pos < usize::MAX,
        ensures
            final(self).wf(),
            final(self).initial == old(self).initial,
            final(self).pos == old(self).pos + 1,
            final(self).chars@ == if old(self).pos < old(self).chars@.len() {
                old(self).chars@.update(old(self).pos as int, g)
            } else {
                old(self).chars@.push(g)
            },
    {
        if self.pos < self.chars.len() {
            self.chars[self.pos] = g;
        } else {
            self.chars.push(g);
        }
        self.pos = self.pos + 1;
    }

    /// Reverts the most recent confirmed character: restores the target
    /// placeholder within the target's length, removes an extra character
    /// outright. `false` when nothing was confirmed.
    pub fn pop(&mut self) -> (popped: bool)
        requires
            old(self).wf(),
        ensures
            final(self).wf(),
            final(self).initial == old(self).initial,
            popped == (old(self).pos > 0),
            old(self).pos == 0 ==> *final(self) == *old(self),
            old(self).pos > 0 ==> final(self).pos == old(self).pos - 1,
            old(self).pos > 0 && old(self).pos - 1 < old(self).initial@.len() ==> final(self).chars@
                == old(self).chars@.update(
                old(self).pos - 1,
                old(self).initial@[old(self).pos - 1],
            ),
            old(self).pos > 0 && old(self).pos - 1 >= old(self).initial@.len() ==> final(self).chars@
                == old(self).chars@.drop_last(),
    {
        if self.pos > 0 {
            if self.pos - 1 < self.initial.len() {
                self.chars[self.pos - 1] = self.initial[self.pos - 1];
            } else {
                let _ = self.chars.pop();
            }
            self.pos = self.pos - 1;
            true
        } else {
            false
        }
    }
}

/// A wrapped row: the half-open range of word indices `start..end` it
/// holds, and its rendered width, one separating space after each word.
#[derive(Clone, Copy, PartialEq, Eq, Structural, Debug)]
pub struct Line {
    pub start: usize,
    pub end: usize,
    pub len: usize,
}

/// The rendered width of each word.
pub open spec fn word_widths(words: Seq<Word>) -> Seq<int> {
    Seq::new(words.len(), |i: int| glyphs_width(words[i].chars@))
}

/// The rendered width of the words `a..b`, one space after each.
pub open spec fn seg_width(ws: Seq<int>, a: int, b: int) -> int
    decreases b - a,
{
    if a >= b {
        0
    } else {
        seg_width(ws, a, b - 1) + ws[b - 1] + 1
    }
}

/// The greedy wrap of the words `i..`, with the line under construction
/// holding the words `start..i` at width `lw`: when the next word would
/// push a non-empty line past `width`, the line closes and the word opens
/// the next one; a final line always closes, even empty.
pub open spec fn spec_wrap_from(ws: Seq<int>, width: int, i: int, start: int, lw: int) -> Seq<
    Line,
>
    decreases ws.len() - i,
{
    if i < 0 || i >= ws.len() {
        seq![Line { start: start as usize, end: ws.len() as usize, len: lw as usize }]
    } else {
        if i > start && lw + ws[i] > width {
            seq![Line { start: start as usize, end: i as usize, len: lw as usize }]
                + spec_wrap_from(ws, width, i + 1, i, ws[i] + 1)
        } else {
            spec_wrap_from(ws, width, i + 1, start, lw + ws[i] + 1)
        }
    }
}

/// The greedy wrap of a whole word sequence under a column budget.
pub open spec fn spec_wrap(ws: Seq<int>, width: int) -> Seq<Line> {
    spec_wrap_from(ws, width, 0, 0, 0)
}

/// Every width is non-negative.
pub open spec fn widths_ok(ws: Seq<int>) -> bool {
    forall|k: int| 0 <= k < ws.len() ==> #[trigger] ws[k] >= 0
}

/// A segment's width is non-negative, and splitting it adds up.
proof fn lemma_seg_width_parts(ws: Seq<int>, a: int, m: int, b: int)
    requires
        a <= m <= b,
        widths_ok(ws),
        0 <= a,
        b <= ws.len(),
    ensures
        seg_width(ws, a, b) == seg_width(ws, a, m) + seg_width(ws, m, b),
        seg_width(ws, m, b) >= 0,
    decreases b - m,
{
    if m == b {
    } else {
        lemma_seg_width_parts(ws, a, m, b - 1);
    }
}

/// The wrap of a suffix partitions the remaining word indices: lines sit
/// side by side, the first opens at `start`, the last closes at the end,
/// and only the final line may be empty.
pub proof fn lemma_wrap_from_partition(ws: Seq<int>, width: int, i: int, start: int, lw: int)
    requires
        0 <= start <= i <= ws.len(),
        ws.len() <= usize::MAX,
    ensures
        ({
            let lines = spec_wrap_from(ws, width, i, start, lw);
            &&& lines.len() >= 1
            &&& lines[0].start == start
            &&& lines.last().end == ws.len()
            &&& forall|k: int|
                0 <= k < lines.len() - 1 ==> (#[trigger] lines[k]).end == lines[k + 1].start
            &&& forall|k: int|
                0 <= k < lines.len() ==> (#[trigger] lines[k]).start <= lines[k].end <= ws.len()
            &&& forall|k: int|
                0 <= k < lines.len() - 1 ==> (#[trigger] lines[k]).start < lines[k].end
        }),
    decreases ws.len() - i,
{
    let lines = spec_wrap_from(ws, width, i, start, lw);
    if i >= ws.len() {
    } else {
        if i > start && lw + ws[i] > width {
            lemma_wrap_from_partition(ws, width, i + 1, i, ws[i] + 1);
            let rest = spec_wrap_from(ws, width, i + 1, i, ws[i] + 1);
            assert(lines[0] == (Line {
                start: start as usize,
                end: i as usize,
                len: lw as usize,
            }));
            assert(forall|k: int| 0 <= k < rest.len() ==> lines[k + 1] == rest[k]);
            assert(lines.last() == rest.last());
        } else {
            lemma_wrap_from_partition(ws, width, i + 1, start, lw + ws[i] + 1);
        }
    }
}

/// Wrap partition: the lines of a wrap cover the word indices exactly
/// once, in order, each line non-empty but possibly the last; and the
/// wrap is a function of the words and the width alone, so re-running it
/// on an unchanged sequence yields the same lines.
pub proof fn lemma_wrap_partition(ws: Seq<int>, width: int)
    requires
        ws.len() <= usize::MAX,
    ensures
        ({
            let lines = spec_wrap(ws, width);
            &&& lines.len() >= 1
            &&& lines[0].start == 0
            &&& lines.last().end == ws.len()
            &&& forall|k: int|
                0 <= k < lines.len() - 1 ==> (#[trigger] lines[k]).end == lines[k + 1].start
            &&& forall|k: int|
                0 <= k < lines.len() ==> (#[trigger] lines[k]).start <= lines[k].end <= ws.len()
            &&& forall|k: int|
                0 <= k < lines.len() - 1 ==> (#[trigger] lines[k]).start < lines[k].end
        }),
{
    lemma_wrap_from_partition(ws, width, 0, 0, 0);
}

/// Computes the greedy wrap of `words` under the column budget `width`.
pub fn wrap(words: &Vec<Word>, width: usize) -> (lines: Vec<Line>)
    requires
        forall|k: int| 0 <= k < words@.len() ==> (#[trigger] words@[k]).wf(),
        seg_width(word_widths(words@), 0, words@.len() as int) <= usize::MAX,
    ensures
        lines@ == spec_wrap(word_widths(words@), width as int),
{
    let ghost ws = word_widths(words@);
    proof {
        assert(widths_ok(ws)) by {
            assert forall|k: int| 0 <= k < ws.len() implies #[trigger] ws[k] >= 0 by {
                lemma_glyphs_width_nonneg(words@[k].chars@);
            }
        }
    }
    let n: usize = words.len();
    let mut lines: Vec<Line> = Vec::new();
    let mut start: usize = 0;
    let mut line_width: usize = 0;
    let mut i: usize = 0;
    while i < n
        invariant
            0 <= start <= i <= n == words@.len(),
            ws == word_widths(words@),
            widths_ok(ws),
            forall|k: int| 0 <= k < words@.len() ==> (#[trigger] words@[k]).wf(),
            seg_width(ws, 0, n as int) <= usize::MAX,
            line_width == seg_width(ws, start as int, i as int),
            spec_wrap(ws, width as int) == lines@ + spec_wrap_from(
                ws,
                width as int,
                i as int,
                start as int,
                line_width as int,
            ),
        decreases n - i,
    {
        proof {
            lemma_seg_width_parts(ws, 0, 0, start as int);
            lemma_seg_width_parts(ws, 0, start as int, n as int);
            lemma_seg_width_parts(ws, start as int, i + 1, n as int);
            assert(seg_width(ws, start as int, i + 1) == seg_width(ws, start as int, i as int)
                + ws[i as int] + 1);
            assert(ws[i as int] == glyphs_width(words@[i as int].chars@));
            assert(line_width + ws[i as int] + 1 <= usize::MAX);
        }
        let word_width: usize = words[i].width();
        if i > start && line_width + word_width > width {
            lines.push(Line { start, end: i, len: line_width });
            start = i;
            line_width = 0;
        }
        line_width = line_width + word_width + 1;
        proof {
            assert(seg_width(ws, start as int, start as int) == 0);
            assert(line_width == seg_width(ws, start as int, i + 1));
            assert(lines@ + spec_wrap_from(ws, width as int, i + 1, start as int, line_width as int)
                =~= spec_wrap(ws, width as int));
        }
        i = i + 1;
    }
    lines.push(Line { start, end: n, len: line_width });
    proof {
        assert(lines@ =~= spec_wrap(ws, width as int));
    }
    lines
}

/// One paint instruction of a frame. The surrounding terminal layer turns
/// these into styled writes; nothing else is needed to draw a frame.
#[derive(Clone, Copy, PartialEq, Eq, Debug)]
pub enum DrawOp {
    /// Clear the whole screen and paint the background.
    Clear,
    /// Move the terminal cursor to (column, row), one-based.
    Goto(u16, u16),
    /// Paint one character in the style's colors.
    Glyph(char, Style),
    /// Paint the separating space after a word.
    Space,
}

/// The paint instructions of one glyph buffer, in order.
pub open spec fn glyph_ops(gs: Seq<Glyph>) -> Seq<DrawOp>
    decreases gs.len(),
{
    if gs.len() == 0 {
        Seq::empty()
    } else {
        glyph_ops(gs.drop_last()).push(DrawOp::Glyph(gs.last().ch, gs.last().style))
    }
}

/// The paint instructions of the words `a..b`, a space after each.
pub open spec fn words_ops(words: Seq<Word>, a: int, b: int) -> Seq<DrawOp>
    decreases b - a,
{
    if a >= b {
        Seq::empty()
    } else {
        words_ops(words, a, b - 1) + glyph_ops(words[b - 1].chars@) + seq![DrawOp::Space]
    }
}

/// The column and row a frame line `k` starts at, clipped to the
/// terminal's 16-bit coordinates.
pub open spec fn clip_u16(v: int) -> u16 {
    (v % 0x10000) as u16
}

/// The paint instructions of the wrapped lines from `k` on: each line
/// moves to its row and paints its words.
pub open spec fn lines_ops(words: Seq<Word>, lines: Seq<Line>, k: int, x0: int, y0: int) -> Seq<
    DrawOp,
>
    decreases lines.len() - k,
{
    if k < 0 || k >= lines.len() {
        Seq::empty()
    } else {
        seq![DrawOp::Goto(clip_u16(x0), clip_u16(y0 + k))] + words_ops(
            words,
            lines[k].start as int,
            lines[k].end as int,
        ) + lines_ops(words, lines, k + 1, x0, y0)
    }
}

/// Builds the paint instruction of one glyph.
fn glyph_op(g: Glyph) -> (r: DrawOp)
    ensures
        r == DrawOp::Glyph(g.ch, g.style),
{
    DrawOp::Glyph(g.ch, g.style)
}

/// Appends the paint instructions of one word and its separating space.
fn push_word_ops(ops: &mut Vec<DrawOp>, w: &Word)
    ensures
        final(ops)@ == old(ops)@ + glyph_ops(w.chars@) + seq![DrawOp::Space],
{
    let mut i: usize = 0;
    while i < w.chars.len()
        invariant
            i <= w.chars@.len(),
            ops@ == old(ops)@ + glyph_ops(w.chars@.subrange(0, i as int)),
        decreases w.chars@.len() - i,
    {
        let g: Glyph = w.chars[i];
        ops.push(glyph_op(g));
        proof {
            assert(w.chars@.subrange(0, i + 1).drop_last() =~= w.chars@.subrange(0, i as int));
            assert(w.chars@.subrange(0, i + 1).last() == w.chars@[i as int]);
            assert(ops@ =~= old(ops)@ + glyph_ops(w.chars@.subrange(0, i + 1)));
        }
        i = i + 1;
    }
    ops.push(DrawOp::Space);
    proof {
        assert(w.chars@.subrange(0, w.chars@.len() as int) =~= w.chars@);
        assert(ops@ =~= old(ops)@ + glyph_ops(w.chars@) + seq![DrawOp::Space]);
    }
}

/// A glyph sequence's width is never negative.
proof fn lemma_glyphs_width_nonneg(gs: Seq<Glyph>)
    ensures
        glyphs_width(gs) >= 0,
    decreases gs.len(),
{
    if gs.len() > 0 {
        lemma_glyphs_width_nonneg(gs.drop_last());
    }
}

/// The width of the first `i` glyphs never exceeds the width of them all.
proof fn lemma_glyphs_width_prefix_bound(gs: Seq<Glyph>, i: int)
    requires
        0 <= i <= gs.len(),
    ensures
        glyphs_width(gs.subrange(0, i)) <= glyphs_width(gs),
    decreases gs.len() - i,
{
    if i == gs.len() {
        assert(gs.subrange(0, i) =~= gs);
    } else {
        lemma_glyphs_width_prefix_bound(gs, i + 1);
        lemma_glyphs_width_prefix(gs, i);
    }
}

/// Extending a prefix by one glyph adds that glyph's width.
proof fn lemma_glyphs_width_prefix(gs: Seq<Glyph>, i: int)
    requires
        0 <= i < gs.len(),
    ensures
        glyphs_width(gs.subrange(0, i + 1)) == glyphs_width(gs.subrange(0, i)) + gs[i].width,
{
    assert(gs.subrange(0, i + 1).drop_last() =~= gs.subrange(0, i));
    assert(gs.subrange(0, i + 1).last() == gs[i]);
}

} // verus!

verus! {

/// The cursor seat after accepting a character of width `w`: the column
/// advances within the line's width, else the cursor moves to the next
/// line, seated at `reseat` — the width of the current word's
/// already-confirmed characters.
pub open spec fn spec_cursor_forward(line: int, pos: int, w: int, reseat: int, lines: Seq<
    Line,
>) -> (int, int) {
    let l = if line < lines.len() {
        line
    } else {
        lines.len() - 1
    };
    if pos + w < lines[l].len {
        (l, pos + w)
    } else if l < lines.len() - 1 {
        (l + 1, reseat)
    } else {
        (l, pos)
    }
}

/// The cursor seat after undoing a character of width `w`: the column
/// retreats, or the cursor moves back to the previous line's full width.
pub open spec fn spec_cursor_back(line: int, pos: int, w: int, lines: Seq<Line>) -> (int, int) {
    let l = if line < lines.len() {
        line
    } else {
        lines.len() - 1
    };
    if pos >= w {
        (l, pos - w)
    } else if l > 0 {
        (l - 1, lines[l - 1].len as int)
    } else {
        (l, pos)
    }
}

/// The renderer's computable state: the words as styled glyph buffers,
/// the current word, and the cursor's (line, column) seat. The wrap is
/// never cached across movements or frames; every use recomputes it from
/// the width then in force, so a resize takes effect at once.
pub struct RenderState {
    pub words: Vec<Word>,
    pub word: usize,
    pub line: usize,
    pub pos: usize,
}

/// `new` relates to `old` by one confirmed character `c` styled `style`,
/// under the column budget `width`: the current word took the glyph at its
/// cursor and the screen cursor advanced by the glyph's width.
pub open spec fn spec_typed(s: RenderState, t: RenderState, c: char, style: Style, width: usize) -> bool {
    let g = Glyph { ch: c, width: width_of(c)->Some_0, style };
    let w = s.words@[s.word as int];
    &&& width_of(c) is Some
    &&& t.word == s.word
    &&& t.words@.len() == s.words@.len()
    &&& forall|k: int| 0 <= k < s.words@.len() && k != s.word ==> t.words@[k] == s.words@[k]
    &&& t.words@[s.word as int].initial == w.initial
    &&& t.words@[s.word as int].pos == w.pos + 1
    &&& t.words@[s.word as int].chars@ == if w.pos < w.chars@.len() {
        w.chars@.update(w.pos as int, g)
    } else {
        w.chars@.push(g)
    }
    &&& (seg_width(word_widths(t.words@), 0, t.words@.len() as int) <= usize::MAX ==> (
    t.line as int,
        t.pos as int,
    ) == spec_cursor_forward(
        s.line as int,
        s.pos as int,
        g.width as int,
        glyphs_width(t.words@[s.word as int].chars@.subrange(0, w.pos + 1)),
        spec_wrap(word_widths(t.words@), width as int),
    ))
    &&& (seg_width(word_widths(t.words@), 0, t.words@.len() as int) > usize::MAX ==> t.line
        == s.line && t.pos == s.pos)
}

impl RenderState {
    /// Internal consistency: at least one word, none empty, the current
    /// word within range, every word well formed and the total rendered
    /// width representable.
    pub open spec fn wf(&self) -> bool {
        &&& self.words@.len() > 0
        &&& self.word < self.words@.len()
        &&& forall|k: int| 0 <= k < self.words@.len() ==> (#[trigger] self.words@[k]).wf()
        &&& forall|k: int|
            0 <= k < self.words@.len() ==> (#[trigger] self.words@[k]).initial@.len() > 0
    }
}

} // verus!

verus! {

/// Updating one glyph changes a buffer's width by the width difference.
proof fn lemma_glyphs_width_update(gs: Seq<Glyph>, i: int, g: Glyph)
    requires
        0 <= i < gs.len(),
    ensures
        glyphs_width(gs.update(i, g)) == glyphs_width(gs) - gs[i].width + g.width,
    decreases gs.len(),
{
    if i == gs.len() - 1 {
        assert(gs.update(i, g).drop_last() =~= gs.drop_last());
    } else {
        lemma_glyphs_width_update(gs.drop_last(), i, g);
        assert(gs.update(i, g).drop_last() =~= gs.drop_last().update(i, g));
    }
}

/// Appending one glyph adds its width.
proof fn lemma_glyphs_width_push(gs: Seq<Glyph>, g: Glyph)
    ensures
        glyphs_width(gs.push(g)) == glyphs_width(gs) + g.width,
{
    assert(gs.push(g).drop_last() =~= gs);
}

/// Changing one entry changes a segment's width by the entry difference.
proof fn lemma_seg_width_update(ws: Seq<int>, ws2: Seq<int>, k: int, a: int, b: int)
    requires
        ws.len() == ws2.len(),
        0 <= a <= b <= ws.len(),
        0 <= k < ws.len(),
        forall|j: int| 0 <= j < ws.len() && j != k ==> ws2[j] == ws[j],
    ensures
        seg_width(ws2, a, b) == seg_width(ws, a, b) + if a <= k < b {
            ws2[k] - ws[k]
        } else {
            0
        },
    decreases b - a,
{
    if a < b {
        lemma_seg_width_update(ws, ws2, k, a, b - 1);
    }
}

/// A glyph buffer whose widths came from the characters' display widths
/// has exactly the characters' rendered width.
proof fn lemma_glyphs_width_matches(gs: Seq<Glyph>, w: Seq<char>)
    requires
        gs.len() == w.len(),
        word_renderable(w),
        forall|i: int| 0 <= i < w.len() ==> (#[trigger] gs[i]).width == width_of(w[i])->Some_0,
    ensures
        glyphs_width(gs) == word_chars_width(w),
    decreases w.len(),
{
    if w.len() > 0 {
        lemma_glyphs_width_matches(gs.drop_last(), w.drop_last());
        assert(gs[w.len() - 1].width == width_of(w[w.len() - 1])->Some_0);
    }
}

/// A word sequence whose glyph widths came from the display widths has
/// exactly the corpus budget as its total rendered width.
proof fn lemma_budget_matches(ws: Seq<Word>, strs: Seq<String>, i: int)
    requires
        ws.len() == strs.len(),
        0 <= i <= ws.len(),
        forall|k: int|
            0 <= k < ws.len() ==> glyphs_width((#[trigger] ws[k]).chars@) == word_chars_width(
                strs[k]@,
            ),
    ensures
        seg_width(word_widths(ws), 0, i) == corpus_budget(strs, i),
    decreases i,
{
    if i > 0 {
        lemma_budget_matches(ws, strs, i - 1);
    }
}

/// Within a representable total budget, each single word's width fits.
proof fn lemma_word_in_budget(words: Seq<Word>, k: int)
    requires
        0 <= k < words.len(),
        seg_width(word_widths(words), 0, words.len() as int) <= usize::MAX,
        forall|j: int| 0 <= j < words.len() ==> (#[trigger] words[j]).wf(),
    ensures
        glyphs_width(words[k].chars@) + 1 <= seg_width(word_widths(words), 0, words.len() as int),
        glyphs_width(words[k].chars@) < usize::MAX,
{
    let ws = word_widths(words);
    assert(widths_ok(ws)) by {
        assert forall|j: int| 0 <= j < ws.len() implies #[trigger] ws[j] >= 0 by {
            lemma_glyphs_width_nonneg(words[j].chars@);
        }
    }
    lemma_seg_width_parts(ws, 0, 0, k);
    lemma_seg_width_parts(ws, 0, k, words.len() as int);
    lemma_seg_width_parts(ws, k, k + 1, words.len() as int);
    assert(seg_width(ws, k, k) == 0);
    assert(seg_width(ws, k, k + 1) == ws[k] + 1);
}

/// Sums a word's glyph widths; `None` when the sum cannot be represented.
fn checked_width(w: &Word) -> (r: Option<usize>)
    ensures
        r is Some ==> r->Some_0 == glyphs_width(w.chars@),
        r is None ==> glyphs_width(w.chars@) > usize::MAX,
{
    let mut total: usize = 0;
    let mut i: usize = 0;
    while i < w.chars.len()
        invariant
            i <= w.chars@.len(),
            total == glyphs_width(w.chars@.subrange(0, i as int)),
        decreases w.chars@.len() - i,
    {
        proof {
            lemma_glyphs_width_prefix(w.chars@, i as int);
            assert(w.chars@.subrange(0, i + 1).drop_last() =~= w.chars@.subrange(0, i as int));
        }
        match total.checked_add(w.chars[i].width) {
            Some(t) => {
                total = t;
            },
            None => {
                proof {
                    lemma_glyphs_width_prefix_bound(w.chars@, i + 1);
                }
                return None;
            },
        }
        i = i + 1;
    }
    proof {
        assert(w.chars@.subrange(0, w.chars@.len() as int) =~= w.chars@);
    }
    Some(total)
}

/// Sums the rendered width of all words, a space after each; `None` when
/// the total cannot be represented.
fn total_budget(words: &Vec<Word>) -> (r: Option<usize>)
    ensures
        r is Some ==> r->Some_0 == seg_width(word_widths(words@), 0, words@.len() as int),
        r is None ==> seg_width(word_widths(words@), 0, words@.len() as int) > usize::MAX,
{
    let ghost ws = word_widths(words@);
    proof {
        assert(widths_ok(ws)) by {
            assert forall|j: int| 0 <= j < ws.len() implies #[trigger] ws[j] >= 0 by {
                lemma_glyphs_width_nonneg(words@[j].chars@);
            }
        }
    }
    let mut total: usize = 0;
    let mut i: usize = 0;
    while i < words.len()
        invariant
            i <= words@.len(),
            ws == word_widths(words@),
            widths_ok(ws),
            total == seg_width(ws, 0, i as int),
        decreases words@.len() - i,
    {
        let cw: Option<usize> = checked_width(&words[i]);
        if cw.is_none() {
            proof {
                lemma_seg_width_parts(ws, 0, 0, i + 1);
                lemma_seg_width_parts(ws, 0, i + 1, words@.len() as int);
            }
            return None;
        }
        let t1: Option<usize> = total.checked_add(cw.unwrap());
        if t1.is_none() {
            proof {
                lemma_seg_width_parts(ws, 0, 0, i + 1);
                lemma_seg_width_parts(ws, 0, i + 1, words@.len() as int);
            }
            return None;
        }
        let t2: Option<usize> = t1.unwrap().checked_add(1);
        if t2.is_none() {
            proof {
                lemma_seg_width_parts(ws, 0, 0, i + 1);
                lemma_seg_width_parts(ws, 0, i + 1, words@.len() as int);
            }
            return None;
        }
        total = t2.unwrap();
        i = i + 1;
    }
    Some(total)
}

} // verus!

verus! {

/// `new` relates to `old` by one undone character under the column budget
/// `width`: the current word reverted its most recent glyph and the screen
/// cursor moved back by that reverted glyph's own display width.
pub open spec fn spec_undone(s: RenderState, t: RenderState, width: usize) -> bool {
    let w = s.words@[s.word as int];
    &&& t.word == s.word
    &&& t.words@.len() == s.words@.len()
    &&& forall|k: int| 0 <= k < s.words@.len() && k != s.word ==> t.words@[k] == s.words@[k]
    &&& t.words@[s.word as int].initial == w.initial
    &&& t.words@[s.word as int].pos == w.pos - 1
    &&& t.words@[s.word as int].chars@ == if w.pos - 1 < w.initial@.len() {
        w.chars@.update(w.pos - 1, w.initial@[w.pos - 1])
    } else {
        w.chars@.drop_last()
    }
    &&& (seg_width(word_widths(t.words@), 0, t.words@.len() as int) <= usize::MAX ==> (
    t.line as int,
        t.pos as int,
    ) == spec_cursor_back(
        s.line as int,
        s.pos as int,
        w.chars@[w.pos - 1].width as int,
        spec_wrap(word_widths(t.words@), width as int),
    ))
    &&& (seg_width(word_widths(t.words@), 0, t.words@.len() as int) > usize::MAX ==> t.line
        == s.line && t.pos == s.pos)
}

impl RenderState {
    /// Builds the renderer state for a word sequence. It succeeds if and
    /// only if the sequence is non-empty, every word is non-empty with a
    /// display width for each character, and the total rendered width is
    /// representable; every glyph starts as a placeholder carrying its
    /// character's width.
    pub fn new(words: &Vec<String>) -> (r: Option<RenderState>)
        ensures
            r is Some <==> words@.len() > 0 && (forall|k: int|
                0 <= k < words@.len() ==> (#[trigger] words@[k])@.len() > 0 && word_renderable(
                    words@[k]@,
                )) && corpus_budget(words@, words@.len() as int) <= usize::MAX,
            r is Some ==> {
                let s = r->Some_0;
                &&& s.wf()
                &&& s.word == 0
                &&& s.line == 0
                &&& s.pos == 0
                &&& s.words@.len() == words@.len()
                &&& forall|k: int|
                    0 <= k < words@.len() ==> {
                        let w = #[trigger] s.words@[k];
                        &&& w.pos == 0
                        &&& w.chars@ == w.initial@
                        &&& w.initial@.len() == words@[k]@.len()
                        &&& forall|j: int|
                            0 <= j < words@[k]@.len() ==> (#[trigger] w.initial@[j]).ch
                                == words@[k]@[j] && w.initial@[j].width == width_of(
                                words@[k]@[j],
                            )->Some_0
                    }
            },
    {
        if words.len() == 0 {
            return None;
        }
        let mut ws: Vec<Word> = Vec::new();
        let mut i: usize = 0;
        while i < words.len()
            invariant
                i <= words@.len(),
                ws@.len() == i,
                forall|k: int|
                    0 <= k < i ==> {
                        let w = #[trigger] ws@[k];
                        &&& w.wf()
                        &&& w.pos == 0
                        &&& w.chars@ == w.initial@
                        &&& w.initial@.len() == words@[k]@.len()
                        &&& w.initial@.len() > 0
                        &&& word_renderable(words@[k]@)
                        &&& forall|j: int|
                            0 <= j < words@[k]@.len() ==> (#[trigger] w.initial@[j]).ch
                                == words@[k]@[j] && w.initial@[j].width == width_of(
                                words@[k]@[j],
                            )->Some_0
                    },
            decreases words@.len() - i,
        {
            let ow: Option<Word> = Word::from_str(words[i].as_str());
            if ow.is_none() {
                return None;
            }
            let w: Word = ow.unwrap();
            if w.initial.len() == 0 {
                return None;
            }
            ws.push(w);
            i = i + 1;
        }
        proof {
            assert forall|k: int| 0 <= k < ws@.len() implies glyphs_width(
                (#[trigger] ws@[k]).chars@,
            ) == word_chars_width(words@[k]@) by {
                lemma_glyphs_width_matches(ws@[k].chars@, words@[k]@);
            }
            lemma_budget_matches(ws@, words@, words@.len() as int);
            assert forall|k: int| 0 <= k < words@.len() implies (#[trigger] words@[k])@.len() > 0
                && word_renderable(words@[k]@) by {
                assert(ws@[k].initial@.len() > 0);
                assert(ws@[k].initial@.len() == words@[k]@.len());
            }
        }
        if total_budget(&ws).is_none() {
            return None;
        }
        Some(RenderState { words: ws, word: 0, line: 0, pos: 0 })
    }

    /// Moves the cursor forward by `w` columns — the display width of the
    /// character just accepted — wrapping to the next line at the line's
    /// end, where it is seated at the width of the current word's
    /// already-confirmed characters; with an unrepresentable total width
    /// nothing moves.
    pub fn cursor_forward(&mut self, w: usize, width: usize)
        requires
            old(self).wf(),
        ensures
            final(self).wf(),
            final(self).words == old(self).words,
            final(self).word == old(self).word,
            seg_width(word_widths(old(self).words@), 0, old(self).words@.len() as int)
                <= usize::MAX ==> ({
                let cur = old(self).words@[old(self).word as int];
                (final(self).line as int, final(self).pos as int) == spec_cursor_forward(
                    old(self).line as int,
                    old(self).pos as int,
                    w as int,
                    glyphs_width(cur.chars@.subrange(0, cur.pos as int)),
                    spec_wrap(word_widths(old(self).words@), width as int),
                )
            }),
            seg_width(word_widths(old(self).words@), 0, old(self).words@.len() as int)
                > usize::MAX ==> *final(self) == *old(self),
    {
        let _bound: usize = self.words.len();
        let ob: Option<usize> = total_budget(&self.words);
        if ob.is_none() {
            return;
        }
        proof {
            lemma_word_in_budget(self.words@, self.word as int);
            lemma_wrap_partition(word_widths(self.words@), width as int);
        }
        let lines: Vec<Line> = wrap(&self.words, width);
        let l: usize = if self.line < lines.len() {
            self.line
        } else {
            lines.len() - 1
        };
        self.line = l;
        if (self.pos as u128) + (w as u128) < (lines[l].len as u128) {
            self.pos = self.pos + w;
        } else if l < lines.len() - 1 {
            self.line = l + 1;
            self.pos = self.words[self.word].confirmed_width();
        }
    }

    /// Moves the cursor back by `w` columns — the display width of the
    /// character being undone — wrapping to the previous line's full
    /// width; with an unrepresentable total width nothing moves.
    pub fn cursor_back(&mut self, w: usize, width: usize)
        requires
            old(self).wf(),
        ensures
            final(self).wf(),
            final(self).words == old(self).words,
            final(self).word == old(self).word,
            seg_width(word_widths(old(self).words@), 0, old(self).words@.len() as int)
                <= usize::MAX ==> (final(self).line as int, final(self).pos as int)
                == spec_cursor_back(
                old(self).line as int,
                old(self).pos as int,
                w as int,
                spec_wrap(word_widths(old(self).words@), width as int),
            ),
            seg_width(word_widths(old(self).words@), 0, old(self).words@.len() as int)
                > usize::MAX ==> *final(self) == *old(self),
    {
        let _bound: usize = self.words.len();
        let ob: Option<usize> = total_budget(&self.words);
        if ob.is_none() {
            return;
        }
        proof {
            lemma_wrap_partition(word_widths(self.words@), width as int);
        }
        let lines: Vec<Line> = wrap(&self.words, width);
        let l: usize = if self.line < lines.len() {
            self.line
        } else {
            lines.len() - 1
        };
        self.line = l;
        if self.pos >= w {
            self.pos = self.pos - w;
        } else if l > 0 {
            self.line = l - 1;
            self.pos = lines[l - 1].len;
        }
    }
}

} // verus!

verus! {

impl RenderState {
    /// Confirms one typed character with the given style and advances the
    /// cursor. The character is taken if and only if it has a display
    /// width and the word's cursor can still move; `false` leaves the
    /// state untouched.
    fn typed(&mut self, c: char, style: Style, width: usize) -> (ok: bool)
        requires
            old(self).wf(),
        ensures
            final(self).wf(),
            ok <==> width_of(c) is Some && old(self).words@[old(self).word as int].pos
                < usize::MAX,
            !ok ==> *final(self) == *old(self),
            ok ==> spec_typed(*old(self), *final(self), c, style, width),
    {
        let ow: Option<usize> = char_width(c);
        if ow.is_none() {
            return false;
        }
        let w: usize = ow.unwrap();
        if self.words[self.word].pos == usize::MAX {
            return false;
        }
        let g: Glyph = Glyph { ch: c, width: w, style };
        let cur: &mut Word = &mut self.words[self.word];
        cur.push(g);
        self.cursor_forward(w, width);
        true
    }

    /// Confirms a correctly typed character.
    pub fn correct(&mut self, c: char, width: usize) -> (ok: bool)
        requires
            old(self).wf(),
        ensures
            final(self).wf(),
            ok <==> width_of(c) is Some && old(self).words@[old(self).word as int].pos
                < usize::MAX,
            !ok ==> *final(self) == *old(self),
            ok ==> spec_typed(*old(self), *final(self), c, Style::Correct, width),
    {
        self.typed(c, Style::Correct, width)
    }

    /// Confirms a mistyped character.
    pub fn error(&mut self, c: char, width: usize) -> (ok: bool)
        requires
            old(self).wf(),
        ensures
            final(self).wf(),
            ok <==> width_of(c) is Some && old(self).words@[old(self).word as int].pos
                < usize::MAX,
            !ok ==> *final(self) == *old(self),
            ok ==> spec_typed(*old(self), *final(self), c, Style::Error, width),
    {
        self.typed(c, Style::Error, width)
    }

    /// Confirms a character typed beyond the target's end.
    pub fn extra(&mut self, c: char, width: usize) -> (ok: bool)
        requires
            old(self).wf(),
        ensures
            final(self).wf(),
            ok <==> width_of(c) is Some && old(self).words@[old(self).word as int].pos
                < usize::MAX,
            !ok ==> *final(self) == *old(self),
            ok ==> spec_typed(*old(self), *final(self), c, Style::Extra, width),
    {
        self.typed(c, Style::Extra, width)
    }

    /// Reverts the most recent confirmed character of the current word:
    /// within the target it becomes the placeholder again, an extra
    /// character is removed outright, and the cursor retreats by the
    /// reverted character's width; with nothing confirmed, nothing
    /// changes.
    pub fn undo(&mut self, width: usize)
        requires
            old(self).wf(),
        ensures
            final(self).wf(),
            old(self).words@[old(self).word as int].pos == 0 ==> *final(self) == *old(self),
            old(self).words@[old(self).word as int].pos > 0 ==> spec_undone(
                *old(self),
                *final(self),
                width,
            ),
    {
        let p: usize = self.words[self.word].pos;
        if p == 0 {
            return;
        }
        let undone: Glyph = self.words[self.word].chars[p - 1];
        let cur: &mut Word = &mut self.words[self.word];
        let _popped: bool = cur.pop();
        self.cursor_back(undone.width, width);
    }

    /// Advances to the next word and seats the cursor after it, stepping
    /// by the width of the new word's trailing glyph; on a line change it
    /// reseats at the new word's confirmed width, which is zero for an
    /// untouched word.
    pub fn next_word(&mut self, width: usize)
        requires
            old(self).wf(),
            old(self).word + 1 < old(self).words@.len(),
        ensures
            final(self).wf(),
            final(self).words == old(self).words,
            final(self).word == old(self).word + 1,
            seg_width(word_widths(old(self).words@), 0, old(self).words@.len() as int)
                <= usize::MAX ==> ({
                let w = old(self).words@[old(self).word + 1];
                (final(self).line as int, final(self).pos as int) == spec_cursor_forward(
                    old(self).line as int,
                    old(self).pos as int,
                    w.chars@.last().width as int,
                    glyphs_width(w.chars@.subrange(0, w.pos as int)),
                    spec_wrap(word_widths(old(self).words@), width as int),
                )
            }),
            seg_width(word_widths(old(self).words@), 0, old(self).words@.len() as int)
                > usize::MAX ==> final(self).line == old(self).line && final(self).pos == old(
                self,
            ).pos,
    {
        let _bound: usize = self.words.len();
        self.word = self.word + 1;
        let g: Glyph = self.words[self.word].last().unwrap();
        self.cursor_forward(g.width, width);
    }
}

} // verus!

verus! {

impl RenderState {
    /// Computes the paint instructions of one full frame for a terminal of
    /// `cols` by `rows` cells: a clear, then every wrapped line's styled
    /// glyphs at its row, then the cursor moved to its live seat. The
    /// column budget is half the terminal width; the block starts at the
    /// remaining half's left edge and at mid-height. With an
    /// unrepresentable total width the frame is empty.
    pub fn render(&self, cols: u16, rows: u16) -> (ops: Vec<DrawOp>)
        requires
            self.wf(),
        ensures
            ({
                let width = (cols / 2) as int;
                let x0 = width - width / 2;
                let y0 = (rows / 2) as int;
                let lines = spec_wrap(word_widths(self.words@), width);
                seg_width(word_widths(self.words@), 0, self.words@.len() as int) <= usize::MAX
                    ==> ops@ == seq![DrawOp::Clear] + lines_ops(self.words@, lines, 0, x0, y0)
                    + seq![
                    DrawOp::Goto(
                        clip_u16(x0 + self.pos as int),
                        clip_u16(y0 + self.line as int),
                    ),
                ]
            }),
            seg_width(word_widths(self.words@), 0, self.words@.len() as int) > usize::MAX
                ==> ops@ == Seq::<DrawOp>::empty(),
    {
        let mut ops: Vec<DrawOp> = Vec::new();
        if total_budget(&self.words).is_none() {
            proof {
                assert(ops@ =~= Seq::<DrawOp>::empty());
            }
            return ops;
        }
        let width: u16 = cols / 2;
        let x0: u16 = width - width / 2;
        let y0: u16 = rows / 2;
        let _bound: usize = self.words.len();
        let lines: Vec<Line> = wrap(&self.words, width as usize);
        let ghost lns = spec_wrap(word_widths(self.words@), width as int);
        proof {
            lemma_wrap_partition(word_widths(self.words@), width as int);
        }
        ops.push(DrawOp::Clear);
        let mut k: usize = 0;
        while k < lines.len()
            invariant
                k <= lines@.len(),
                lines@ == lns,
                self.wf(),
                forall|t: int|
                    0 <= t < lines@.len() ==> (#[trigger] lines@[t]).start <= lines@[t].end
                        <= self.words@.len(),
                seq![DrawOp::Clear] + lines_ops(self.words@, lns, 0, x0 as int, y0 as int) == ops@
                    + lines_ops(self.words@, lns, k as int, x0 as int, y0 as int),
            decreases lines@.len() - k,
        {
            let yk: u128 = ((y0 as u128) + (k as u128)) % 0x10000;
            ops.push(DrawOp::Goto(x0, yk as u16));
            let ghost mid = ops@;
            let mut j: usize = lines[k].start;
            let end: usize = lines[k].end;
            while j < end
                invariant
                    lines@[k as int].start <= j <= end == lines@[k as int].end,
                    k < lines@.len(),
                    end <= self.words@.len(),
                    ops@ == mid + words_ops(self.words@, lines@[k as int].start as int, j as int),
                decreases end - j,
            {
                push_word_ops(&mut ops, &self.words[j]);
                proof {
                    assert(ops@ =~= mid + words_ops(
                        self.words@,
                        lines@[k as int].start as int,
                        j + 1,
                    ));
                }
                j = j + 1;
            }
            proof {
                assert(seq![DrawOp::Clear] + lines_ops(self.words@, lns, 0, x0 as int, y0 as int)
                    =~= ops@ + lines_ops(self.words@, lns, k + 1, x0 as int, y0 as int));
            }
            k = k + 1;
        }
        let xc: u128 = ((x0 as u128) + (self.pos as u128)) % 0x10000;
        let yc: u128 = ((y0 as u128) + (self.line as u128)) % 0x10000;
        ops.push(DrawOp::Goto(xc as u16, yc as u16));
        proof {
            assert(ops@ =~= seq![DrawOp::Clear] + lines_ops(
                self.words@,
                lns,
                0,
                x0 as int,
                y0 as int,
            ) + seq![
                DrawOp::Goto(
                    clip_u16(x0 as int + self.pos as int),
                    clip_u16(y0 as int + self.line as int),
                ),
            ]);
        }
        ops
    }
}

} // verus!
