//! The rendered-text index: immutable per-line records mapping source byte
//! offsets to rendered byte offsets and back, plus the link table.
//!
//! Rendered text may omit or transform source bytes (collapsed breaks,
//! stripped fence markers), so each line carries a sorted list of
//! `SourceMapping` anchor points; offsets between anchors are resolved from
//! the closest preceding anchor by constant difference.

use vstd::prelude::*;

use crate::layout::LineLayout;

verus! {

/// An anchor point tying a rendered offset within a line to the source
/// offset it was copied from.
#[derive(Clone, Copy, Debug, PartialEq, Eq, Structural)]
pub struct SourceMapping {
    /// Byte offset into the line's rendered text.
    pub rendered_index: usize,
    /// Byte offset into the source text.
    pub source_index: usize,
}

/// A hyperlink discovered during the render-tree build.
#[derive(Clone, Debug)]
pub struct RenderedLink {
    /// First source byte of the link's markdown span.
    pub source_start: usize,
    /// One past the last source byte of the link's markdown span.
    pub source_end: usize,
    /// The link's destination.
    pub destination_url: Vec<u8>,
}

impl RenderedLink {
    /// Field-wise equality of two links.
    pub open spec fn same_spec(self, other: RenderedLink) -> bool {
        &&& self.source_start == other.source_start
        &&& self.source_end == other.source_end
        &&& self.destination_url@ == other.destination_url@
    }

    /// Compares two links field by field.
    pub fn same_link(&self, other: &RenderedLink) -> (r: bool)
        ensures
            r == self.same_spec(*other),
    {
        if self.source_start != other.source_start || self.source_end != other.source_end {
            return false;
        }
        if self.destination_url.len() != other.destination_url.len() {
            proof {
                assert(self.destination_url@.len() != other.destination_url@.len());
            }
            return false;
        }
        let n = self.destination_url.len();
        let mut i: usize = 0;
        while i < n
            invariant
                n == self.destination_url@.len() == other.destination_url@.len(),
                0 <= i <= n,
                forall|j: int| 0 <= j < i ==> self.destination_url@[j] == other.destination_url@[j],
            decreases n - i,
        {
            if self.destination_url[i] != other.destination_url[i] {
                return false;
            }
            i = i + 1;
        }
        proof {
            assert(self.destination_url@ =~= other.destination_url@);
        }
        true
    }
}

/// One laid-out line of rendered text, produced once per build and immutable.
#[derive(Clone, Debug)]
pub struct RenderedLine {
    /// The rendered bytes of the line.
    pub text: Vec<u8>,
    /// Sorted anchor points, one per contiguous text insertion.
    pub source_mappings: Vec<SourceMapping>,
    /// The source offset one past the line's last character.
    pub source_end: usize,
    /// The measured geometry of the line.
    pub layout: LineLayout,
}

impl RenderedLine {
    /// The source offset where the line begins.
    pub open spec fn source_start(self) -> usize {
        self.source_mappings[0].source_index
    }

    /// Well-formed mapping data.  Anchors are sorted strictly by rendered
    /// offset and weakly by source offset; a rendered run never advances the
    /// source by less than its own length; the recorded line end is the last
    /// anchor's source offset plus the text that follows it.
    pub open spec fn wf(self) -> bool {
        let ms = self.source_mappings;
        &&& ms.len() >= 1
        &&& ms[0].rendered_index == 0
        &&& forall|a: int, b: int|
            0 <= a < b < ms.len() ==> #[trigger] ms[b].rendered_index > #[trigger] ms[
                a].rendered_index
        &&& forall|a: int, b: int|
            0 <= a < b < ms.len() ==> #[trigger] ms[b].source_index - #[trigger] ms[a].source_index
                >= ms[b].rendered_index - ms[a].rendered_index
        &&& forall|i: int| 0 <= i < ms.len() ==> (#[trigger] ms[i]).rendered_index <= self.text.len()
        &&& ms[ms.len() - 1].source_index + self.text.len() == self.source_end + ms[ms.len()
            - 1].rendered_index
        &&& self.text.len() + self.source_end <= usize::MAX
    }

    /// The line's geometry has been measured and covers its text.
    pub open spec fn laid(self) -> bool {
        &&& self.layout.wf()
        &&& self.layout.text_len() == self.text.len()
    }
}

/// Every anchor's source offset lies between the line's start and end.
pub proof fn lemma_anchor_in_line(line: RenderedLine, i: int)
    requires
        line.wf(),
        0 <= i < line.source_mappings.len(),
    ensures
        line.source_start() <= line.source_mappings[i].source_index <= line.source_end,
{
    let ms = line.source_mappings;
    if i > 0 {
        assert(ms[i].source_index - ms[0].source_index >= ms[i].rendered_index
            - ms[0].rendered_index);
    }
    if i < ms.len() - 1 {
        assert(ms[ms.len() - 1].source_index - ms[i].source_index >= ms[ms.len()
            - 1].rendered_index - ms[i].rendered_index);
    }
}

/// The anchor that governs source offset `s`: the last one at or before it.
pub open spec fn map_index_for_source(ms: Seq<SourceMapping>, s: int) -> int {
    choose|i: int|
        0 <= i < ms.len() && (#[trigger] ms[i]).source_index <= s && (i + 1 == ms.len() || ms[i
            + 1].source_index > s)
}

/// The anchor that governs rendered offset `x`: the last one at or before it.
pub open spec fn map_index_for_rendered(ms: Seq<SourceMapping>, x: int) -> int {
    choose|i: int|
        0 <= i < ms.len() && (#[trigger] ms[i]).rendered_index <= x && (i + 1 == ms.len() || ms[i
            + 1].rendered_index > x)
}

/// A governing anchor for a source offset exists once the offset is at or
/// past the line's first anchor.
pub proof fn lemma_source_anchor_exists(line: RenderedLine, s: int)
    requires
        line.wf(),
        line.source_start() <= s,
    ensures
        ({
            let i = map_index_for_source(line.source_mappings@, s);
            let ms = line.source_mappings;
            &&& 0 <= i < ms.len()
            &&& ms[i].source_index <= s
            &&& i + 1 == ms.len() || ms[i + 1].source_index > s
        }),
{
    lemma_source_anchor_exists_helper(line, s, line.source_mappings.len() - 1);
}

proof fn lemma_source_anchor_exists_helper(line: RenderedLine, s: int, m: int)
    requires
        line.wf(),
        line.source_start() <= s,
        0 <= m < line.source_mappings.len(),
        m + 1 == line.source_mappings.len() || line.source_mappings[m + 1].source_index > s,
    ensures
        ({
            let i = map_index_for_source(line.source_mappings@, s);
            let ms = line.source_mappings;
            &&& 0 <= i < ms.len()
            &&& ms[i].source_index <= s
            &&& i + 1 == ms.len() || ms[i + 1].source_index > s
        }),
    decreases m,
{
    let ms = line.source_mappings;
    if ms[m].source_index <= s {
        assert(0 <= m < ms.len() && (#[trigger] ms@[m]).source_index <= s && (m + 1 == ms.len()
            || ms[m + 1].source_index > s));
    } else {
        lemma_source_anchor_exists_helper(line, s, m - 1);
    }
}

/// The governing anchor for a source offset is unique.
pub proof fn lemma_source_anchor_unique(line: RenderedLine, s: int, i: int)
    requires
        line.wf(),
        0 <= i < line.source_mappings.len(),
        line.source_mappings[i].source_index <= s,
        i + 1 == line.source_mappings.len() || line.source_mappings[i + 1].source_index > s,
    ensures
        map_index_for_source(line.source_mappings@, s) == i,
{
    let ms = line.source_mappings;
    assert(0 <= i < ms.len() && (#[trigger] ms@[i]).source_index <= s && (i + 1 == ms.len() || ms[i
        + 1].source_index > s));
    let i2 = map_index_for_source(ms@, s);
    if i + 1 <= i2 {
        assert(false);
    } else if i2 + 1 <= i {
        assert(false);
    }
}

/// A governing anchor for a rendered offset always exists.
pub proof fn lemma_rendered_anchor_exists(line: RenderedLine, x: int)
    requires
        line.wf(),
        0 <= x,
    ensures
        ({
            let i = map_index_for_rendered(line.source_mappings@, x);
            let ms = line.source_mappings;
            &&& 0 <= i < ms.len()
            &&& ms[i].rendered_index <= x
            &&& i + 1 == ms.len() || ms[i + 1].rendered_index > x
        }),
{
    lemma_rendered_anchor_exists_helper(line, x, line.source_mappings.len() - 1);
}

proof fn lemma_rendered_anchor_exists_helper(line: RenderedLine, x: int, m: int)
    requires
        line.wf(),
        0 <= x,
        0 <= m < line.source_mappings.len(),
        m + 1 == line.source_mappings.len() || line.source_mappings[m + 1].rendered_index > x,
    ensures
        ({
            let i = map_index_for_rendered(line.source_mappings@, x);
            let ms = line.source_mappings;
            &&& 0 <= i < ms.len()
            &&& ms[i].rendered_index <= x
            &&& i + 1 == ms.len() || ms[i + 1].rendered_index > x
        }),
    decreases m,
{
    let ms = line.source_mappings;
    if ms[m].rendered_index <= x {
        assert(0 <= m < ms.len() && (#[trigger] ms@[m]).rendered_index <= x && (m + 1 == ms.len()
            || ms[m + 1].rendered_index > x));
    } else {
        lemma_rendered_anchor_exists_helper(line, x, m - 1);
    }
}

/// The governing anchor for a rendered offset is unique.
pub proof fn lemma_rendered_anchor_unique(line: RenderedLine, x: int, i: int)
    requires
        line.wf(),
        0 <= i < line.source_mappings.len(),
        line.source_mappings[i].rendered_index <= x,
        i + 1 == line.source_mappings.len() || line.source_mappings[i + 1].rendered_index > x,
    ensures
        map_index_for_rendered(line.source_mappings@, x) == i,
{
    let ms = line.source_mappings;
    assert(0 <= i < ms.len() && (#[trigger] ms@[i]).rendered_index <= x && (i + 1 == ms.len()
        || ms[i + 1].rendered_index > x));
    let i2 = map_index_for_rendered(ms@, x);
    if i + 1 <= i2 {
        assert(false);
    } else if i2 + 1 <= i {
        assert(false);
    }
}

/// The rendered offset a source offset maps to: resolved from the closest
/// preceding anchor by constant difference.
pub open spec fn rendered_for_source(line: RenderedLine, s: int) -> int {
    let m = map_index_for_source(line.source_mappings@, s);
    line.source_mappings[m].rendered_index + (s - line.source_mappings[m].source_index)
}

/// The source offset a rendered offset maps to: resolved from the closest
/// preceding anchor by constant difference.
pub open spec fn source_for_rendered(line: RenderedLine, x: int) -> int {
    let m = map_index_for_rendered(line.source_mappings@, x);
    line.source_mappings[m].source_index + (x - line.source_mappings[m].rendered_index)
}

impl RenderedLine {
    /// Resolves a source offset within the line to the rendered offset of
    /// the same character, by binary search over the anchors.  In a source
    /// region that is not rendered (dropped markup), the result may lie past
    /// the rendered text's end.
    pub fn rendered_index_for_source_index(&self, source_index: usize) -> (r: usize)
        requires
            self.wf(),
            self.source_start() <= source_index <= self.source_end,
        ensures
            r == rendered_for_source(*self, source_index as int),
    {
        let ms = &self.source_mappings;
        let mut lo: usize = 0;
        let mut hi: usize = ms.len() - 1;
        while lo < hi
            invariant
                self.wf(),
                ms == self.source_mappings,
                0 <= lo <= hi < ms.len(),
                ms[lo as int].source_index <= source_index,
                hi + 1 == ms.len() || ms[hi + 1].source_index > source_index,
            decreases hi - lo,
        {
            let mid = lo + (hi - lo + 1) / 2;
            if ms[mid].source_index <= source_index {
                lo = mid;
            } else {
                hi = mid - 1;
            }
        }
        proof {
            lemma_source_anchor_unique(*self, source_index as int, lo as int);
            lemma_anchor_in_line(*self, lo as int);
        }
        ms[lo].rendered_index + (source_index - ms[lo].source_index)
    }

    /// Resolves a rendered offset within the line back to the source
    /// offset of the same character, by binary search over the anchors.
    pub fn source_index_for_rendered_index(&self, rendered_index: usize) -> (r: usize)
        requires
            self.wf(),
            rendered_index <= self.text.len(),
        ensures
            r == source_for_rendered(*self, rendered_index as int),
            self.source_start() <= r <= self.source_end,
    {
        proof {
            lemma_source_for_rendered_in_line(*self, rendered_index as int);
        }
        let ms = &self.source_mappings;
        let mut lo: usize = 0;
        let mut hi: usize = ms.len() - 1;
        while lo < hi
            invariant
                self.wf(),
                ms == self.source_mappings,
                0 <= lo <= hi < ms.len(),
                ms[lo as int].rendered_index <= rendered_index,
                hi + 1 == ms.len() || ms[hi + 1].rendered_index > rendered_index,
            decreases hi - lo,
        {
            let mid = lo + (hi - lo + 1) / 2;
            if ms[mid].rendered_index <= rendered_index {
                lo = mid;
            } else {
                hi = mid - 1;
            }
        }
        proof {
            lemma_rendered_anchor_unique(*self, rendered_index as int, lo as int);
            lemma_anchor_in_line(*self, lo as int);
        }
        ms[lo].source_index + (rendered_index - ms[lo].rendered_index)
    }
}

/// A rendered offset within the text maps to a source offset within the
/// line's source span.
pub proof fn lemma_source_for_rendered_in_line(line: RenderedLine, x: int)
    requires
        line.wf(),
        0 <= x <= line.text.len(),
    ensures
        line.source_start() <= source_for_rendered(line, x) <= line.source_end,
{
    let ms = line.source_mappings;
    lemma_rendered_anchor_exists(line, x);
    let m = map_index_for_rendered(ms@, x);
    lemma_anchor_in_line(line, m);
    if m < ms.len() - 1 {
        assert(ms[ms.len() - 1].source_index - ms[m].source_index >= ms[ms.len()
            - 1].rendered_index - ms[m].rendered_index);
        assert(x < ms[m + 1].rendered_index);
        if m + 1 <= ms.len() - 1 {
            assert(ms[ms.len() - 1].source_index - ms[m + 1].source_index >= ms[ms.len()
                - 1].rendered_index - ms[m + 1].rendered_index || m + 1 == ms.len() - 1);
        }
    }
}

/// Resolving rendered offsets to source offsets is monotone.
pub proof fn lemma_source_for_rendered_monotone(line: RenderedLine, x1: int, x2: int)
    requires
        line.wf(),
        0 <= x1 <= x2,
    ensures
        source_for_rendered(line, x1) <= source_for_rendered(line, x2),
{
    let ms = line.source_mappings;
    lemma_rendered_anchor_exists(line, x1);
    lemma_rendered_anchor_exists(line, x2);
    let m1 = map_index_for_rendered(ms@, x1);
    let m2 = map_index_for_rendered(ms@, x2);
    if m2 < m1 {
        if m2 + 1 < m1 {
            assert(ms[m1].source_index - ms[m2 + 1].source_index >= ms[m1].rendered_index - ms[m2
                + 1].rendered_index);
        }
        assert(false);
    }
    if m1 < m2 {
        assert(ms[m2].source_index - ms[m1].source_index >= ms[m2].rendered_index
            - ms[m1].rendered_index);
        if m1 + 1 < m2 {
            assert(ms[m2].source_index - ms[m1 + 1].source_index >= ms[m2].rendered_index - ms[m1
                + 1].rendered_index);
        }
    }
}


/// The rendered-text index: the immutable line set and the link table.
#[derive(Clone, Debug)]
pub struct RenderedText {
    /// All rendered lines, in source and visual order.
    pub lines: Vec<RenderedLine>,
    /// All links, in source order.
    pub links: Vec<RenderedLink>,
}

impl RenderedText {
    /// Every line is well formed and the lines are ordered by source span.
    pub open spec fn wf(self) -> bool {
        &&& forall|i: int| 0 <= i < self.lines.len() ==> #[trigger] self.lines[i].wf()
        &&& forall|a: int, b: int|
            0 <= a < b < self.lines.len() ==> #[trigger] self.lines[b].source_start()
                >= #[trigger] self.lines[a].source_end
    }

    /// Every line's geometry is measured and the lines are stacked top to
    /// bottom without overlap.
    pub open spec fn laid(self) -> bool {
        &&& forall|i: int| 0 <= i < self.lines.len() ==> #[trigger] self.lines[i].laid()
        &&& forall|a: int, b: int|
            0 <= a < b < self.lines.len() ==> #[trigger] self.lines[b].layout.top()
                >= #[trigger] self.lines[a].layout.bottom()
    }
}

/// The rendered offset for a source offset, clamped into the line's text:
/// offsets before the line's first anchor resolve to the line start, and a
/// resolution past the text's end (a source region that is not rendered)
/// resolves to the text's end.
pub open spec fn rendered_clamped(line: RenderedLine, s: int) -> int {
    if s < line.source_start() {
        0
    } else if rendered_for_source(line, s) > line.text.len() {
        line.text.len() as int
    } else {
        rendered_for_source(line, s)
    }
}

impl RenderedLine {
    /// The clamped source-to-rendered translation.
    pub fn rendered_index_clamped(&self, source_index: usize) -> (r: usize)
        requires
            self.wf(),
            source_index <= self.source_end,
        ensures
            r == rendered_clamped(*self, source_index as int),
            r <= self.text.len(),
    {
        if source_index < self.source_mappings[0].source_index {
            return 0;
        }
        let x = self.rendered_index_for_source_index(source_index);
        if x > self.text.len() {
            self.text.len()
        } else {
            x
        }
    }
}

/// The word range around a source offset within one line: expand left and
/// right from the clamped rendered offset to the nearest spaces (or the
/// line's ends), then resolve both ends back to source offsets.
pub open spec fn word_bounds_in_line(line: RenderedLine, s: int) -> (int, int) {
    let rix = rendered_clamped(line, s);
    let t = line.text@;
    let ps = match crate::text::last_byte_before(t, rix, crate::text::SPACE) {
        Some(j) => j + 1,
        None => 0,
    };
    let ns = match crate::text::first_byte_from(t, rix, crate::text::SPACE) {
        Some(j) => j,
        None => t.len() as int,
    };
    (source_for_rendered(line, ps), source_for_rendered(line, ns))
}

/// The word range over the whole index: the first line whose span has not
/// ended before the offset answers; past every line the range is empty.
pub open spec fn word_range_from(lines: Seq<RenderedLine>, i: int, s: int) -> (int, int)
    decreases lines.len() - i when 0 <= i <= lines.len()
{
    if i >= lines.len() {
        (s, s)
    } else if s > lines[i].source_end {
        word_range_from(lines, i + 1, s)
    } else {
        word_bounds_in_line(lines[i], s)
    }
}

/// The full source range of the line containing a source offset.
pub open spec fn line_range_from(lines: Seq<RenderedLine>, i: int, s: int) -> (int, int)
    decreases lines.len() - i when 0 <= i <= lines.len()
{
    if i >= lines.len() {
        (s, s)
    } else if s > lines[i].source_end {
        line_range_from(lines, i + 1, s)
    } else {
        (lines[i].source_start() as int, lines[i].source_end as int)
    }
}

impl RenderedText {
    /// Expands a source offset to the surrounding word: to the nearest space
    /// characters (or line ends) within the containing rendered line; the
    /// result never crosses a rendered line boundary.
    pub fn surrounding_word_range(&self, source_index: usize) -> (r: (usize, usize))
        requires
            self.wf(),
        ensures
            (r.0 as int, r.1 as int) == word_range_from(self.lines@, 0, source_index as int),
            r.0 <= r.1,
    {
        let ghost s = source_index as int;
        let mut i: usize = 0;
        while i < self.lines.len()
            invariant
                self.wf(),
                0 <= i <= self.lines.len(),
                word_range_from(self.lines@, 0, s) == word_range_from(self.lines@, i as int, s),
                s == source_index as int,
            decreases self.lines.len() - i,
        {
            proof {
                assert(self.lines@[i as int].wf());
            }
            let line = &self.lines[i];
            if source_index > line.source_end {
                i = i + 1;
                continue;
            }
            let rix = line.rendered_index_clamped(source_index);
            let prev_space: usize = match crate::text::rfind_byte(&line.text, rix, crate::text::SPACE) {
                Some(j) => {
                    proof {
                        crate::text::lemma_last_byte_in_range(
                            line.text@,
                            rix as int,
                            j as int,
                            crate::text::SPACE,
                        );
                    }
                    j + 1
                },
                None => 0,
            };
            let next_space: usize = match crate::text::find_byte(&line.text, rix, crate::text::SPACE) {
                Some(j) => {
                    proof {
                        crate::text::lemma_first_byte_in_range(
                            line.text@,
                            rix as int,
                            j as int,
                            crate::text::SPACE,
                        );
                    }
                    j
                },
                None => line.text.len(),
            };
            let ws = line.source_index_for_rendered_index(prev_space);
            let we = line.source_index_for_rendered_index(next_space);
            proof {
                lemma_source_for_rendered_monotone(
                    self.lines@[i as int],
                    prev_space as int,
                    next_space as int,
                );
            }
            return (ws, we);
        }
        (source_index, source_index)
    }

    /// Returns the full source range spanned by the rendered line that
    /// contains the offset.
    pub fn surrounding_line_range(&self, source_index: usize) -> (r: (usize, usize))
        requires
            self.wf(),
        ensures
            (r.0 as int, r.1 as int) == line_range_from(self.lines@, 0, source_index as int),
            r.0 <= r.1,
    {
        let ghost s = source_index as int;
        let mut i: usize = 0;
        while i < self.lines.len()
            invariant
                self.wf(),
                0 <= i <= self.lines.len(),
                line_range_from(self.lines@, 0, s) == line_range_from(self.lines@, i as int, s),
                s == source_index as int,
            decreases self.lines.len() - i,
        {
            proof {
                assert(self.lines@[i as int].wf());
            }
            let line = &self.lines[i];
            if source_index > line.source_end {
                i = i + 1;
                continue;
            }
            proof {
                lemma_anchor_in_line(self.lines@[i as int], 0);
            }
            return (line.source_mappings[0].source_index, line.source_end);
        }
        (source_index, source_index)
    }
}


/// The view of a list of byte vectors as a sequence of byte sequences.
pub open spec fn parts_view(parts: Seq<Vec<u8>>) -> Seq<Seq<u8>> {
    parts.map_values(|v: Vec<u8>| v@)
}

/// The slice one line contributes to a range extraction, clipped to the
/// range's bounds and to the line's rendered text.
pub open spec fn clip_in_line(line: RenderedLine, a: int, b: int) -> Seq<u8> {
    let t = line.text@;
    let start0 = if a < line.source_start() {
        0int
    } else {
        rendered_for_source(line, a)
    };
    let end0 = if b > line.source_end {
        rendered_for_source(line, line.source_end as int)
    } else {
        rendered_for_source(line, b)
    };
    let start1 = if start0 > t.len() {
        t.len() as int
    } else {
        start0
    };
    let end1 = if end0 > t.len() {
        t.len() as int
    } else {
        end0
    };
    let start2 = if start1 > end1 {
        end1
    } else {
        start1
    };
    t.subrange(start2, end1)
}

/// The clipped slices of every line intersecting the range, in order; the
/// scan stops at the first line beginning past the range.
pub open spec fn parts_for_range(lines: Seq<RenderedLine>, i: int, a: int, b: int) -> Seq<Seq<u8>>
    decreases lines.len() - i when 0 <= i <= lines.len()
{
    if i >= lines.len() {
        Seq::empty()
    } else if a > lines[i].source_end {
        parts_for_range(lines, i + 1, a, b)
    } else if b < lines[i].source_start() {
        Seq::empty()
    } else {
        seq![clip_in_line(lines[i], a, b)] + parts_for_range(lines, i + 1, a, b)
    }
}

/// Joins slices with single line breaks.
pub open spec fn join_parts(parts: Seq<Seq<u8>>) -> Seq<u8>
    decreases parts.len()
{
    if parts.len() == 0 {
        Seq::empty()
    } else if parts.len() == 1 {
        parts[0]
    } else {
        parts[0] + seq![crate::text::NEWLINE] + join_parts(parts.drop_first())
    }
}

/// Appending one more part extends the join by one separator and the part.
pub proof fn lemma_join_snoc(ps: Seq<Seq<u8>>, p: Seq<u8>)
    ensures
        join_parts(ps.push(p)) == if ps.len() == 0 {
            p
        } else {
            join_parts(ps) + seq![crate::text::NEWLINE] + p
        },
    decreases ps.len(),
{
    let q = ps.push(p);
    if ps.len() == 0 {
        assert(q[0] == p);
    } else if ps.len() == 1 {
        assert(q.drop_first() =~= seq![p]);
        assert(join_parts(seq![p]) == p);
        assert(q[0] == ps[0]);
        assert(join_parts(ps.push(p)) =~= join_parts(ps) + seq![crate::text::NEWLINE] + p);
    } else {
        lemma_join_snoc(ps.drop_first(), p);
        assert(q.drop_first() =~= ps.drop_first().push(p));
        assert(join_parts(ps.push(p)) =~= join_parts(ps) + seq![crate::text::NEWLINE] + p);
    }
}

impl RenderedText {
    /// Concatenates the rendered text of every line intersecting the source
    /// range, clipped to its bounds, joined with line breaks; used for
    /// clipboard copy.
    #[verifier::rlimit(100)]
    #[verifier::spinoff_prover]
    pub fn text_for_range(&self, start: usize, end: usize) -> (r: Vec<u8>)
        requires
            self.wf(),
        ensures
            r@ == join_parts(parts_for_range(self.lines@, 0, start as int, end as int)),
    {
        let ghost a = start as int;
        let ghost b = end as int;
        let ghost full = parts_for_range(self.lines@, 0, a, b);
        let mut parts: Vec<Vec<u8>> = Vec::new();
        let mut i: usize = 0;
        loop
            invariant_except_break
                self.wf(),
                0 <= i <= self.lines.len(),
                a == start as int && b == end as int,
                full =~= parts_view(parts@) + parts_for_range(self.lines@, i as int, a, b),
            ensures
                full =~= parts_view(parts@),
            decreases self.lines.len() - i,
        {
            if i >= self.lines.len() {
                proof {
                    assert(parts_for_range(self.lines@, i as int, a, b) =~= Seq::<Seq<u8>>::empty());
                }
                break;
            }
            proof {
                assert(self.lines@[i as int].wf());
            }
            let line = &self.lines[i];
            if start > line.source_end {
                proof {
                    assert(parts_for_range(self.lines@, i as int, a, b) == parts_for_range(
                        self.lines@,
                        i + 1,
                        a,
                        b,
                    ));
                }
                i = i + 1;
                continue;
            }
            if end < line.source_mappings[0].source_index {
                proof {
                    assert(parts_for_range(self.lines@, i as int, a, b) =~= Seq::<Seq<u8>>::empty());
                }
                break;
            }
            proof {
                lemma_anchor_in_line(self.lines@[i as int], 0);
            }
            let s0: usize = if start < line.source_mappings[0].source_index {
                0
            } else {
                line.rendered_index_for_source_index(start)
            };
            let e0: usize = if end > line.source_end {
                line.rendered_index_for_source_index(line.source_end)
            } else {
                line.rendered_index_for_source_index(end)
            };
            let tl = line.text.len();
            let s1 = if s0 > tl {
                tl
            } else {
                s0
            };
            let e1 = if e0 > tl {
                tl
            } else {
                e0
            };
            let s2 = if s1 > e1 {
                e1
            } else {
                s1
            };
            let piece = crate::text::subvec(&line.text, s2, e1);
            proof {
                assert(piece@ == clip_in_line(self.lines@[i as int], a, b));
            }
            proof {
                assert(parts_for_range(self.lines@, i as int, a, b) == seq![
                    clip_in_line(self.lines@[i as int], a, b),
                ] + parts_for_range(self.lines@, i + 1, a, b));
            }
            let ghost pv_before = parts_view(parts@);
            parts.push(piece);
            proof {
                assert(parts_view(parts@) =~= pv_before.push(piece@));
                assert(parts_view(parts@) + parts_for_range(self.lines@, i + 1, a, b) =~= full);
            }
            i = i + 1;
        }
        let mut out: Vec<u8> = Vec::new();
        let mut k: usize = 0;
        while k < parts.len()
            invariant
                full =~= parts_view(parts@),
                0 <= k <= parts.len(),
                out@ == join_parts(parts_view(parts@).take(k as int)),
            decreases parts.len() - k,
        {
            let ghost before = parts_view(parts@).take(k as int);
            if k > 0 {
                out.push(crate::text::NEWLINE);
            }
            let part = &parts[k];
            let mut j: usize = 0;
            let ghost mid = out@;
            while j < part.len()
                invariant
                    0 <= j <= part@.len(),
                    part == parts@[k as int],
                    k < parts@.len(),
                    out@ == mid + part@.subrange(0, j as int),
                decreases part.len() - j,
            {
                out.push(part[j]);
                proof {
                    assert(out@ =~= mid + part@.subrange(0, j + 1));
                }
                j = j + 1;
            }
            proof {
                assert(part@.subrange(0, part@.len() as int) =~= part@);
                lemma_join_snoc(before, parts_view(parts@)[k as int]);
                assert(parts_view(parts@).take(k + 1) =~= before.push(parts_view(parts@)[k as int]));
                assert(out@ =~= join_parts(parts_view(parts@).take(k + 1)));
            }
            k = k + 1;
        }
        proof {
            assert(parts_view(parts@).take(parts@.len() as int) =~= parts_view(parts@));
        }
        out
    }
}


/// The source offset under a point, scanning lines top to bottom: `Ok` on a
/// glyph, `Err` with the nearest boundary when the point falls in an
/// inter-line gap or outside all lines.
pub open spec fn lookup_from(lines: Seq<RenderedLine>, i: int, p: crate::layout::PixelPoint) -> Result<
    usize,
    usize,
>
    decreases lines.len() - i when 0 <= i <= lines.len()
{
    if i >= lines.len() {
        if lines.len() == 0 {
            Err(0usize)
        } else {
            Err(lines[lines.len() - 1].source_end)
        }
    } else if p.y as int > lines[i].layout.bottom() {
        if i + 1 < lines.len() && (p.y as int) < lines[i + 1].layout.top() {
            Err(lines[i].source_end)
        } else {
            lookup_from(lines, i + 1, p)
        }
    } else {
        match crate::layout::point_lookup(lines[i].layout, p) {
            Ok(x) => Ok(source_for_rendered(lines[i], x as int) as usize),
            Err(x) => Err(source_for_rendered(lines[i], x as int) as usize),
        }
    }
}

/// The position and line height of a source offset, or `None` when the
/// offset lies outside every line's span.
pub open spec fn position_from(lines: Seq<RenderedLine>, i: int, s: int) -> Option<
    (crate::layout::PixelPoint, u32),
>
    decreases lines.len() - i when 0 <= i <= lines.len()
{
    if i >= lines.len() {
        None
    } else if s < lines[i].source_start() {
        None
    } else if s > lines[i].source_end {
        position_from(lines, i + 1, s)
    } else {
        match crate::layout::index_point(lines[i].layout, rendered_for_source(lines[i], s)) {
            Some(pt) => Some((pt, lines[i].layout.line_height)),
            None => None,
        }
    }
}

/// The first link whose source range contains the offset.
pub open spec fn link_index_at(links: Seq<RenderedLink>, s: int, i: int) -> Option<int>
    decreases links.len() - i when 0 <= i <= links.len()
{
    if i >= links.len() {
        None
    } else if links[i].source_start <= s < links[i].source_end {
        Some(i)
    } else {
        link_index_at(links, s, i + 1)
    }
}

impl RenderedText {
    /// Resolves a point to a source offset: `Ok` within a line's glyph
    /// bounds, `Err` with the nearest boundary offset in margins and gaps.
    pub fn source_index_for_position(&self, p: crate::layout::PixelPoint) -> (r: Result<
        usize,
        usize,
    >)
        requires
            self.wf(),
            self.laid(),
        ensures
            r == lookup_from(self.lines@, 0, p),
    {
        let mut i: usize = 0;
        while i < self.lines.len()
            invariant
                self.wf(),
                self.laid(),
                0 <= i <= self.lines.len(),
                lookup_from(self.lines@, 0, p) == lookup_from(self.lines@, i as int, p),
            decreases self.lines.len() - i,
        {
            proof {
                assert(self.lines@[i as int].laid());
            }
            let line = &self.lines[i];
            let bottom = line.layout.bottom_edge();
            if p.y > bottom {
                if i + 1 < self.lines.len() {
                    proof {
                        assert(self.lines@[i + 1].laid());
                    }
                    let next_top = self.lines[i + 1].layout.top_edge();
                    if p.y < next_top {
                        return Err(line.source_end);
                    }
                }
                i = i + 1;
                continue;
            }
            proof {
                crate::layout::lemma_point_lookup_bound(self.lines@[i as int].layout, p);
            }
            match line.layout.index_for_position(p) {
                Ok(x) => {
                    return Ok(line.source_index_for_rendered_index(x));
                },
                Err(x) => {
                    return Err(line.source_index_for_rendered_index(x));
                },
            }
        }
        if self.lines.len() == 0 {
            Err(0)
        } else {
            Err(self.lines[self.lines.len() - 1].source_end)
        }
    }

    /// Resolves a source offset to the position and line height of its
    /// glyph; `None` when the offset is outside all lines' spans.
    pub fn position_for_source_index(&self, source_index: usize) -> (r: Option<
        (crate::layout::PixelPoint, u32),
    >)
        requires
            self.wf(),
            self.laid(),
        ensures
            r == position_from(self.lines@, 0, source_index as int),
    {
        let ghost s = source_index as int;
        let mut i: usize = 0;
        while i < self.lines.len()
            invariant
                self.wf(),
                self.laid(),
                0 <= i <= self.lines.len(),
                s == source_index as int,
                position_from(self.lines@, 0, s) == position_from(self.lines@, i as int, s),
            decreases self.lines.len() - i,
        {
            proof {
                assert(self.lines@[i as int].wf());
                assert(self.lines@[i as int].laid());
            }
            let line = &self.lines[i];
            if source_index < line.source_mappings[0].source_index {
                return None;
            }
            if source_index > line.source_end {
                i = i + 1;
                continue;
            }
            let rix = line.rendered_index_for_source_index(source_index);
            match line.layout.position_for_index(rix) {
                Some(pt) => {
                    return Some((pt, line.layout.line_height));
                },
                None => {
                    return None;
                },
            }
        }
        None
    }

    /// Resolves a point to the link under it, if any: a position lookup
    /// followed by a scan of the link table.
    pub fn link_for_position(&self, p: crate::layout::PixelPoint) -> (r: Option<&RenderedLink>)
        requires
            self.wf(),
            self.laid(),
        ensures
            lookup_from(self.lines@, 0, p) is Err ==> r is None,
            lookup_from(self.lines@, 0, p) matches Ok(s) ==> ({
                &&& link_index_at(self.links@, s as int, 0) matches Some(k) ==> (r matches Some(l)
                    && *l == self.links@[k])
                &&& link_index_at(self.links@, s as int, 0) is None ==> r is None
            }),
    {
        let six = match self.source_index_for_position(p) {
            Ok(s) => s,
            Err(_) => {
                return None;
            },
        };
        let ghost sv = six as int;
        let mut k: usize = 0;
        while k < self.links.len()
            invariant
                0 <= k <= self.links.len(),
                sv == six as int,
                lookup_from(self.lines@, 0, p) == Ok::<usize, usize>(six),
                link_index_at(self.links@, sv, 0) == link_index_at(self.links@, sv, k as int),
            decreases self.links.len() - k,
        {
            let l = &self.links[k];
            if l.source_start <= six && six < l.source_end {
                proof {
                    assert(link_index_at(self.links@, sv, k as int) == Some(k as int));
                }
                return Some(l);
            }
            k = k + 1;
        }
        None
    }

    /// Attaches measured geometry to every line; the host's layout engine
    /// supplies one well-formed layout per line, stacked top to bottom.
    pub fn with_layouts(self, layouts: Vec<LineLayout>) -> (r: RenderedText)
        requires
            self.wf(),
            layouts.len() == self.lines.len(),
            forall|i: int| 0 <= i < layouts.len() ==> (#[trigger] layouts[i]).wf(),
            forall|i: int|
                0 <= i < layouts.len() ==> (#[trigger] layouts[i]).text_len()
                    == self.lines[i].text.len(),
            forall|a: int, b: int|
                0 <= a < b < layouts.len() ==> #[trigger] layouts[b].top()
                    >= #[trigger] layouts[a].bottom(),
        ensures
            r.wf(),
            r.laid(),
            r.links == self.links,
            r.lines.len() == self.lines.len(),
            forall|i: int|
                0 <= i < r.lines.len() ==> (#[trigger] r.lines[i]).text == self.lines[i].text
                    && r.lines[i].source_mappings == self.lines[i].source_mappings && r.lines[
                    i].source_end == self.lines[i].source_end && r.lines[i].layout == layouts[i],
    {
        let ghost olines = self.lines@;
        let ghost olayouts = layouts@;
        let RenderedText { lines, links } = self;
        let mut rest_lines = lines;
        let mut rest_layouts = layouts;
        let mut out: Vec<RenderedLine> = Vec::new();
        while rest_lines.len() > 0
            invariant
                out@.len() + rest_lines@.len() == olines.len(),
                rest_layouts@.len() == rest_lines@.len(),
                rest_lines@ =~= olines.skip(out@.len() as int),
                rest_layouts@ =~= olayouts.skip(out@.len() as int),
                olayouts.len() == olines.len(),
                forall|i: int|
                    0 <= i < out@.len() ==> (#[trigger] out@[i]).text == olines[i].text && out@[
                        i].source_mappings == olines[i].source_mappings && out@[i].source_end
                        == olines[i].source_end && out@[i].layout == olayouts[i],
            decreases rest_lines.len(),
        {
            let line = rest_lines.remove(0);
            let geom = rest_layouts.remove(0);
            let new_line = RenderedLine {
                text: line.text,
                source_mappings: line.source_mappings,
                source_end: line.source_end,
                layout: geom,
            };
            out.push(new_line);
        }
        let r = RenderedText { lines: out, links };
        proof {
            assert forall|i: int| 0 <= i < r.lines.len() implies (#[trigger] r.lines[i]).wf() by {
                assert(olines[i].wf());
                assert(r.lines[i].text == olines[i].text);
            }
            assert forall|a: int, b: int|
                0 <= a < b < r.lines.len() implies #[trigger] r.lines[b].source_start()
                >= #[trigger] r.lines[a].source_end by {
                assert(olines[b].source_start() >= olines[a].source_end);
                assert(r.lines[b].source_mappings == olines[b].source_mappings);
            }
            assert forall|i: int| 0 <= i < r.lines.len() implies (#[trigger] r.lines[i]).laid() by {
                assert(olayouts[i].wf() && olayouts[i].text_len() == olines[i].text.len());
            }
            assert forall|a: int, b: int|
                0 <= a < b < r.lines.len() implies #[trigger] r.lines[b].layout.top()
                >= #[trigger] r.lines[a].layout.bottom() by {
                assert(olayouts[b].top() >= olayouts[a].bottom());
            }
        }
        r
    }
}


/// A source offset is addressable in a line when it resolves to a rendered
/// offset inside the text and that rendered offset resolves back to it —
/// the offset lies in a contiguous rendered run, not in dropped markup.
pub open spec fn addressable(line: RenderedLine, s: int) -> bool {
    &&& line.source_start() <= s <= line.source_end
    &&& rendered_for_source(line, s) <= line.text.len()
    &&& source_for_rendered(line, rendered_for_source(line, s)) == s
}

/// As `addressable`, but the rendered offset lies strictly inside the text,
/// on a glyph.
pub open spec fn on_glyph(line: RenderedLine, s: int) -> bool {
    &&& addressable(line, s)
    &&& rendered_for_source(line, s) < line.text.len()
}

proof fn lemma_word_skip(rt: RenderedText, i: int, k: int, s: int)
    requires
        rt.wf(),
        0 <= i <= k <= rt.lines.len(),
        forall|j: int| i <= j < k ==> s > (#[trigger] rt.lines[j]).source_end,
    ensures
        word_range_from(rt.lines@, i, s) == word_range_from(rt.lines@, k, s),
    decreases k - i,
{
    if i < k {
        assert(s > rt.lines[i].source_end);
        lemma_word_skip(rt, i + 1, k, s);
    }
}

/// LAW — the surrounding word never crosses a rendered line boundary: the
/// line that answers the query bounds the whole result, the result is an
/// ordered range, and when the offset is addressable in that line the
/// result contains it.
pub proof fn lemma_word_range_in_line(rt: RenderedText, k: int, s: usize)
    requires
        rt.wf(),
        0 <= k < rt.lines.len(),
        s <= rt.lines[k].source_end,
        forall|j: int| 0 <= j < k ==> s > (#[trigger] rt.lines[j]).source_end,
    ensures
        ({
            let r = word_range_from(rt.lines@, 0, s as int);
            &&& r.0 <= r.1
            &&& rt.lines[k].source_start() <= r.0
            &&& r.1 <= rt.lines[k].source_end
            &&& addressable(rt.lines[k], s as int) ==> r.0 <= s <= r.1
        }),
{
    lemma_word_skip(rt, 0, k, s as int);
    let line = rt.lines[k];
    let sv = s as int;
    assert(line.wf());
    let rix = rendered_clamped(line, sv);
    assert(0 <= rix <= line.text.len()) by {
        if sv >= line.source_start() {
            lemma_source_anchor_exists(line, sv);
        }
    }
    let t = line.text@;
    let ps = match crate::text::last_byte_before(t, rix, crate::text::SPACE) {
        Some(j) => j + 1,
        None => 0int,
    };
    let ns = match crate::text::first_byte_from(t, rix, crate::text::SPACE) {
        Some(j) => j,
        None => t.len() as int,
    };
    assert(0 <= ps <= rix) by {
        match crate::text::last_byte_before(t, rix, crate::text::SPACE) {
            Some(j) => {
                crate::text::lemma_last_byte_in_range(t, rix, j, crate::text::SPACE);
            },
            None => {},
        }
    }
    assert(rix <= ns <= t.len()) by {
        match crate::text::first_byte_from(t, rix, crate::text::SPACE) {
            Some(j) => {
                crate::text::lemma_first_byte_in_range(t, rix, j, crate::text::SPACE);
            },
            None => {},
        }
    }
    lemma_source_for_rendered_monotone(line, ps, ns);
    lemma_source_for_rendered_in_line(line, ps);
    lemma_source_for_rendered_in_line(line, ns);
    if addressable(line, sv) {
        assert(rix == rendered_for_source(line, sv));
        lemma_source_for_rendered_monotone(line, ps, rix);
        lemma_source_for_rendered_monotone(line, rix, ns);
    }
}

/// LAW — past every line, the surrounding word of an offset is the empty
/// range at that offset.
pub proof fn lemma_word_range_outside(rt: RenderedText, s: usize)
    requires
        rt.wf(),
        forall|j: int| 0 <= j < rt.lines.len() ==> s > (#[trigger] rt.lines[j]).source_end,
    ensures
        word_range_from(rt.lines@, 0, s as int) == (s as int, s as int),
{
    lemma_word_skip(rt, 0, rt.lines.len() as int, s as int);
}

proof fn lemma_position_skip(rt: RenderedText, i: int, k: int, s: int)
    requires
        rt.wf(),
        0 <= i <= k <= rt.lines.len(),
        forall|j: int| i <= j < k ==> s > (#[trigger] rt.lines[j]).source_end,
    ensures
        position_from(rt.lines@, i, s) == position_from(rt.lines@, k, s),
    decreases k - i,
{
    if i < k {
        assert(s > rt.lines[i].source_end);
        lemma_anchor_in_line(rt.lines[i], 0);
        lemma_position_skip(rt, i + 1, k, s);
    }
}

proof fn lemma_lookup_skip(rt: RenderedText, i: int, k: int, p: crate::layout::PixelPoint)
    requires
        rt.wf(),
        rt.laid(),
        0 <= i <= k <= rt.lines.len(),
        forall|j: int| i <= j < k ==> p.y as int > (#[trigger] rt.lines[j]).layout.bottom(),
        forall|j: int|
            i <= j < k && j + 1 < rt.lines.len() ==> p.y as int >= (#[trigger] rt.lines[j
                + 1]).layout.top(),
    ensures
        lookup_from(rt.lines@, i, p) == lookup_from(rt.lines@, k, p),
    decreases k - i,
{
    if i < k {
        assert(p.y as int > rt.lines[i].layout.bottom());
        if i + 1 < rt.lines.len() {
            assert(p.y as int >= rt.lines[i + 1].layout.top());
        }
        lemma_lookup_skip(rt, i + 1, k, p);
    }
}

/// A point within line `k`'s vertical extent is skipped past every earlier
/// line when lines are strictly separated vertically.
proof fn lemma_roundtrip_skip(rt: RenderedText, k: int, pt: crate::layout::PixelPoint)
    requires
        rt.wf(),
        rt.laid(),
        0 <= k < rt.lines.len(),
        rt.lines[k].layout.top() <= pt.y as int,
        (pt.y as int) < rt.lines[k].layout.bottom(),
        forall|a: int, b: int|
            0 <= a < b < rt.lines.len() ==> #[trigger] rt.lines[b].layout.top()
                > #[trigger] rt.lines[a].layout.bottom(),
    ensures
        lookup_from(rt.lines@, 0, pt) == lookup_from(rt.lines@, k, pt),
{
    assert forall|j: int| 0 <= j < k implies pt.y as int > (#[trigger] rt.lines[j]).layout.bottom()
        by {
        assert(rt.lines[k].layout.top() > rt.lines[j].layout.bottom());
    }
    assert forall|j: int| 0 <= j < k && j + 1 < rt.lines.len() implies pt.y as int >= (
    #[trigger] rt.lines[j + 1]).layout.top() by {
        let lj = rt.lines[j + 1].layout;
        assert(rt.lines[j + 1].laid());
        assert(lj.wf());
        assert(lj.top() <= lj.bottom());
        if j + 1 < k {
            assert(rt.lines[k].layout.top() > rt.lines[j + 1].layout.bottom());
        }
    }
    lemma_lookup_skip(rt, 0, k, pt);
}

/// Within one line, a source offset on a glyph resolves to a point inside
/// the line's vertical extent, and that point resolves back to the same
/// offset.
#[verifier::rlimit(100)]
#[verifier::spinoff_prover]
pub proof fn lemma_line_roundtrip(line: RenderedLine, s: usize)
    requires
        line.wf(),
        line.laid(),
        on_glyph(line, s as int),
    ensures
        ({
            let rix = rendered_for_source(line, s as int);
            let ip = crate::layout::index_point(line.layout, rix);
            &&& ip is Some
            &&& line.layout.top() <= ip.unwrap().y as int
            &&& (ip.unwrap().y as int) < line.layout.bottom()
            &&& crate::layout::point_lookup(line.layout, ip.unwrap()) == Ok::<usize, usize>(
                rix as usize,
            )
            &&& source_for_rendered(line, rix) == s as int
        }),
{
    let l = line.layout;
    let sv = s as int;
    let rix = rendered_for_source(line, sv);
    assert(0 <= rix) by {
        lemma_source_anchor_exists(line, sv);
    }
    crate::layout::lemma_layout_roundtrip(l, rix);
    let pt = crate::layout::index_point(l, rix).unwrap();
    crate::layout::lemma_row_exists(l, rix);
    let row = crate::layout::row_of_index(l, rix);
    assert(pt.y == l.rows[row].y);
    if 0 < row {
        crate::layout::lemma_rows_ordered(l, 0, row);
    }
    if row < l.rows.len() - 1 {
        crate::layout::lemma_rows_ordered(l, row, l.rows.len() - 1);
    }
    assert(l.top() <= pt.y as int);
    assert((pt.y as int) < l.bottom());
}

/// LAW — a source offset on a glyph of the line that answers position
/// queries for it resolves to a position.
pub proof fn lemma_position_is_found(rt: RenderedText, k: int, s: usize)
    requires
        rt.wf(),
        rt.laid(),
        0 <= k < rt.lines.len(),
        forall|j: int| 0 <= j < k ==> s > (#[trigger] rt.lines[j]).source_end,
        rt.lines[k].source_start() <= s <= rt.lines[k].source_end,
        on_glyph(rt.lines[k], s as int),
    ensures
        position_from(rt.lines@, 0, s as int) is Some,
{
    let line = rt.lines[k];
    let sv = s as int;
    assert(line.wf());
    assert(line.laid());
    lemma_position_skip(rt, 0, k, sv);
    lemma_line_roundtrip(line, s);
    let rix = rendered_for_source(line, sv);
    let pt = crate::layout::index_point(line.layout, rix).unwrap();
    assert(position_from(rt.lines@, k, sv) == Some((pt, line.layout.line_height)));
}

/// LAW — the position of an on-glyph source offset: the offset resolves to
/// the point of its glyph in the line that answers position queries for it.
pub proof fn lemma_position_of(rt: RenderedText, k: int, s: usize, pt: crate::layout::PixelPoint)
    requires
        rt.wf(),
        rt.laid(),
        0 <= k < rt.lines.len(),
        forall|j: int| 0 <= j < k ==> s > (#[trigger] rt.lines[j]).source_end,
        rt.lines[k].source_start() <= s <= rt.lines[k].source_end,
        on_glyph(rt.lines[k], s as int),
        crate::layout::index_point(rt.lines[k].layout, rendered_for_source(rt.lines[k], s as int))
            == Some(pt),
    ensures
        position_from(rt.lines@, 0, s as int) == Some((pt, rt.lines[k].layout.line_height)),
{
    let line = rt.lines[k];
    let sv = s as int;
    assert(line.wf());
    assert(line.laid());
    lemma_position_skip(rt, 0, k, sv);
    lemma_line_roundtrip(line, s);
    assert(position_from(rt.lines@, k, sv) == Some((pt, line.layout.line_height)));
}

/// LAW — position round-trip: when a source offset lies on a glyph of the
/// line that answers position queries for it, and lines are strictly
/// separated vertically, the point of that glyph resolves back to the same
/// offset.  Together with `lemma_position_of`, composing the two queries
/// round-trips on glyph offsets.  Strict separation is needed: when a
/// line's top touches the previous line's bottom, the point lookup lets
/// the earlier line answer the shared boundary pixel, so the round trip
/// stops at that line's boundary instead.
#[verifier::rlimit(100)]
#[verifier::spinoff_prover]
pub proof fn lemma_position_roundtrip(
    rt: RenderedText,
    k: int,
    s: usize,
    pt: crate::layout::PixelPoint,
)
    requires
        rt.wf(),
        rt.laid(),
        0 <= k < rt.lines.len(),
        forall|j: int| 0 <= j < k ==> s > (#[trigger] rt.lines[j]).source_end,
        rt.lines[k].source_start() <= s <= rt.lines[k].source_end,
        on_glyph(rt.lines[k], s as int),
        crate::layout::index_point(rt.lines[k].layout, rendered_for_source(rt.lines[k], s as int))
            == Some(pt),
        forall|a: int, b: int|
            0 <= a < b < rt.lines.len() ==> #[trigger] rt.lines[b].layout.top()
                > #[trigger] rt.lines[a].layout.bottom(),
    ensures
        lookup_from(rt.lines@, 0, pt) == Ok::<usize, usize>(s),
{
    lemma_roundtrip_at_line(rt, k, s, pt);
    lemma_line_roundtrip(rt.lines[k], s);
    lemma_roundtrip_skip(rt, k, pt);
}

/// Unfolds one step of the point lookup at a line the point does not miss.
proof fn lemma_lookup_at(
    lines: Seq<RenderedLine>,
    k: int,
    pt: crate::layout::PixelPoint,
    rix: usize,
    s: usize,
)
    requires
        0 <= k < lines.len(),
        pt.y as int <= lines[k].layout.bottom(),
        crate::layout::point_lookup(lines[k].layout, pt) == Ok::<usize, usize>(rix),
        source_for_rendered(lines[k], rix as int) == s as int,
    ensures
        lookup_from(lines, k, pt) == Ok::<usize, usize>(s),
{
}

/// The line that holds an on-glyph offset answers the point lookup with it.
#[verifier::rlimit(100)]
#[verifier::spinoff_prover]
proof fn lemma_roundtrip_at_line(
    rt: RenderedText,
    k: int,
    s: usize,
    pt: crate::layout::PixelPoint,
)
    requires
        rt.wf(),
        rt.laid(),
        0 <= k < rt.lines.len(),
        on_glyph(rt.lines[k], s as int),
        crate::layout::index_point(rt.lines[k].layout, rendered_for_source(rt.lines[k], s as int))
            == Some(pt),
    ensures
        lookup_from(rt.lines@, k, pt) == Ok::<usize, usize>(s),
        rt.lines[k].layout.top() <= pt.y as int,
        (pt.y as int) < rt.lines[k].layout.bottom(),
{
    let line = rt.lines[k];
    assert(line.wf());
    assert(line.laid());
    lemma_source_anchor_exists(line, s as int);
    lemma_line_roundtrip(line, s);
    let rix = rendered_for_source(line, s as int);
    assert(0 <= rix < line.text.len());
    lemma_lookup_at(rt.lines@, k, pt, rix as usize, s);
}

/// LAW — extraction matches slicing on a plain line: in an index of one
/// line whose text was copied contiguously from the source (a single
/// anchor), extracting any sub-range of the line's span returns exactly the
/// corresponding slice of the line's text.
pub proof fn lemma_text_for_plain_range(rt: RenderedText, a: usize, b: usize)
    requires
        rt.wf(),
        rt.lines.len() == 1,
        rt.lines[0].source_mappings.len() == 1,
        rt.lines[0].source_start() <= a <= b <= rt.lines[0].source_end,
    ensures
        join_parts(parts_for_range(rt.lines@, 0, a as int, b as int)) == rt.lines[0].text@.subrange(
            a - rt.lines[0].source_start(),
            b - rt.lines[0].source_start(),
        ),
{
    let line = rt.lines[0];
    assert(line.wf());
    let s0 = line.source_start() as int;
    lemma_source_anchor_unique(line, a as int, 0);
    lemma_source_anchor_unique(line, b as int, 0);
    assert(rendered_for_source(line, a as int) == a - s0);
    assert(rendered_for_source(line, b as int) == b - s0);
    assert(line.text.len() == line.source_end - s0);
    let parts = parts_for_range(rt.lines@, 0, a as int, b as int);
    assert(parts_for_range(rt.lines@, 1, a as int, b as int) =~= Seq::<Seq<u8>>::empty());
    assert(parts =~= seq![clip_in_line(line, a as int, b as int)]);
    assert(join_parts(parts) == clip_in_line(line, a as int, b as int));
}

/// LAW — extraction matches source slicing: when that plain line's text is
/// itself the corresponding slice of the source, extraction over any
/// sub-range equals slicing the source directly.
pub proof fn lemma_text_for_range_matches_source(rt: RenderedText, src: Seq<u8>, a: usize, b: usize)
    requires
        rt.wf(),
        rt.lines.len() == 1,
        rt.lines[0].source_mappings.len() == 1,
        rt.lines[0].source_start() <= a <= b <= rt.lines[0].source_end,
        rt.lines[0].source_end <= src.len(),
        rt.lines[0].text@ == src.subrange(
            rt.lines[0].source_start() as int,
            rt.lines[0].source_end as int,
        ),
    ensures
        join_parts(parts_for_range(rt.lines@, 0, a as int, b as int)) == src.subrange(
            a as int,
            b as int,
        ),
{
    lemma_text_for_plain_range(rt, a, b);
    let line = rt.lines[0];
    let s0 = line.source_start() as int;
    assert(line.text@.subrange(a - s0, b - s0) =~= src.subrange(a as int, b as int));
}


} // verus!
