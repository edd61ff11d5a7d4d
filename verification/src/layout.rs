//! Glyph-level geometry for one laid-out line of rendered text.
//!
//! The host's layout engine measures text; this crate only reads the results:
//! for each wrapped row, the byte range of the line's text it shows, its top
//! coordinate, and the left edge of every glyph.  All coordinates are whole
//! pixels.  The two queries here — point to byte index and byte index to
//! point — are the primitives under every position lookup in the crate.

use vstd::prelude::*;

verus! {

/// A point in the host's pixel coordinate space.
#[derive(Clone, Copy, Debug, PartialEq, Eq, Structural)]
pub struct PixelPoint {
    /// Horizontal coordinate, growing rightward.
    pub x: u32,
    /// Vertical coordinate, growing downward.
    pub y: u32,
}

/// An axis-aligned pixel rectangle.
#[derive(Clone, Copy, Debug, PartialEq, Eq, Structural)]
pub struct PixelRect {
    /// Left edge.
    pub left: u32,
    /// Top edge.
    pub top: u32,
    /// Right edge.
    pub right: u32,
    /// Bottom edge.
    pub bottom: u32,
}

/// One wrapped row of a laid-out line: a contiguous byte range of the line's
/// rendered text, shown at vertical position `y`.
#[derive(Clone, Debug)]
pub struct GlyphRow {
    /// First byte of the line's text shown in this row.
    pub start: usize,
    /// One past the last byte shown in this row.
    pub end: usize,
    /// Top of the row.
    pub y: u32,
    /// Left edge of each glyph; one entry per byte in `start..end`.
    pub glyph_x: Vec<u32>,
    /// Right edge of the row's last glyph.
    pub end_x: u32,
}

/// The measured geometry of one rendered line.
#[derive(Clone, Debug)]
pub struct LineLayout {
    /// The wrapped rows, top to bottom; their byte ranges tile the text.
    pub rows: Vec<GlyphRow>,
    /// Height of every row.
    pub line_height: u32,
}

impl GlyphRow {
    /// Internal consistency of one row.
    pub open spec fn wf(self) -> bool {
        &&& self.start < self.end
        &&& self.glyph_x.len() == self.end - self.start
        &&& forall|a: int, b: int|
            0 <= a < b < self.glyph_x.len() ==> self.glyph_x[a] < self.glyph_x[b]
        &&& forall|a: int| 0 <= a < self.glyph_x.len() ==> self.glyph_x[a] < self.end_x
    }
}

impl LineLayout {
    /// The number of text bytes this layout covers.
    pub open spec fn text_len(self) -> int {
        self.rows[self.rows.len() - 1].end as int
    }

    /// Top of the line: the first row's top.
    pub open spec fn top(self) -> int {
        self.rows[0].y as int
    }

    /// Bottom of the line: the last row's top plus the line height.
    pub open spec fn bottom(self) -> int {
        self.rows[self.rows.len() - 1].y + self.line_height
    }

    /// Well-formed geometry: rows tile the text in order, rows do not
    /// overlap vertically, and every row is internally consistent.
    pub open spec fn wf(self) -> bool {
        &&& self.rows.len() >= 1
        &&& self.line_height >= 1
        &&& self.rows[0].start == 0
        &&& forall|i: int| 0 <= i < self.rows.len() ==> #[trigger] self.rows[i].wf()
        &&& forall|i: int|
            0 <= i < self.rows.len() - 1 ==> (#[trigger] self.rows[i].end) == self.rows[i
                + 1].start
        &&& forall|a: int, b: int|
            0 <= a < b < self.rows.len() ==> #[trigger] self.rows[b].y >= #[trigger] self.rows[a].y
                + self.line_height
        &&& self.rows[self.rows.len() - 1].y + self.line_height <= u32::MAX
    }

    /// A point lands in row `k` when its `y` lies within the row's height.
    pub open spec fn hits_row(self, p: PixelPoint, k: int) -> bool {
        &&& 0 <= k < self.rows.len()
        &&& self.rows[k].y <= p.y < self.rows[k].y + self.line_height
    }

    /// A point lies in the vertical gap just below row `k`.
    pub open spec fn in_gap_below(self, p: PixelPoint, k: int) -> bool {
        &&& 0 <= k < self.rows.len() - 1
        &&& self.rows[k].y + self.line_height <= p.y < self.rows[k + 1].y
    }

    /// Returns the bounding rectangle's top edge.
    pub fn top_edge(&self) -> (t: u32)
        requires
            self.wf(),
        ensures
            t == self.top(),
    {
        self.rows[0].y
    }

    /// Returns the bounding rectangle's bottom edge.
    pub fn bottom_edge(&self) -> (b: u32)
        requires
            self.wf(),
        ensures
            b == self.bottom(),
    {
        self.rows[self.rows.len() - 1].y + self.line_height
    }
}

/// Rows of a well-formed layout are pairwise ordered: a later row starts at
/// or after the end of an earlier one and sits at least a line height lower.
pub proof fn lemma_rows_ordered(l: LineLayout, i: int, j: int)
    requires
        l.wf(),
        0 <= i < j < l.rows.len(),
    ensures
        l.rows[j].y >= l.rows[i].y + l.line_height,
        l.rows[j].start >= l.rows[i].end,
        l.rows[j].end > l.rows[i].end,
    decreases j - i,
{
    assert(l.rows[j].wf());
    assert(l.rows[i].end == l.rows[i + 1].start);
    if j == i + 1 {
    } else {
        lemma_rows_ordered(l, i + 1, j);
        assert(l.rows[i + 1].wf());
    }
}

/// At most one row contains a given point.
pub proof fn lemma_hit_row_unique(l: LineLayout, p: PixelPoint, k1: int, k2: int)
    requires
        l.wf(),
        l.hits_row(p, k1),
        l.hits_row(p, k2),
    ensures
        k1 == k2,
{
    if k1 < k2 {
        lemma_rows_ordered(l, k1, k2);
    } else if k2 < k1 {
        lemma_rows_ordered(l, k2, k1);
    }
}

/// Every byte index below the text length lies in exactly one row; this
/// gives the containing row of an index.
pub open spec fn row_of_index(l: LineLayout, ix: int) -> int {
    choose|k: int| 0 <= k < l.rows.len() && (#[trigger] l.rows[k]).start <= ix < l.rows[k].end
}

/// The first row covers index 0 onward; consecutive rows tile the text, so
/// an index below the text length has a containing row.
pub proof fn lemma_row_exists(l: LineLayout, ix: int)
    requires
        l.wf(),
        0 <= ix < l.text_len(),
    ensures
        0 <= row_of_index(l, ix) < l.rows.len(),
        l.rows[row_of_index(l, ix)].start <= ix < l.rows[row_of_index(l, ix)].end,
{
    lemma_row_exists_helper(l, ix, l.rows.len() - 1);
}

proof fn lemma_row_exists_helper(l: LineLayout, ix: int, j: int)
    requires
        l.wf(),
        0 <= j < l.rows.len(),
        0 <= ix < l.rows[j].end,
    ensures
        exists|k: int| 0 <= k <= j && (#[trigger] l.rows[k]).start <= ix < l.rows[k].end,
    decreases j,
{
    if l.rows[j].start <= ix {
        assert(l.rows[j].start <= ix < l.rows[j].end);
    } else {
        assert(j > 0);
        lemma_row_exists_helper(l, ix, j - 1);
    }
}

/// The glyph within one row whose horizontal span contains `x`: the last
/// glyph whose left edge is at or left of `x`.
pub open spec fn glyph_of_x(row: GlyphRow, x: u32) -> int {
    choose|j: int|
        0 <= j < row.glyph_x.len() && (#[trigger] row.glyph_x[j]) <= x && (j + 1
            == row.glyph_x.len() || row.glyph_x[j + 1] > x)
}

/// Point-to-index resolution within one row: `Ok` on a glyph, `Err` with the
/// nearest boundary when `x` falls left of the first glyph or right of the
/// last.
pub open spec fn glyph_slot(row: GlyphRow, x: u32) -> Result<usize, usize> {
    if x < row.glyph_x[0] {
        Err(row.start)
    } else if x >= row.end_x {
        Err(row.end)
    } else {
        Ok((row.start + glyph_of_x(row, x)) as usize)
    }
}

/// A glyph slot exists whenever `x` is at or right of the row's first glyph.
pub proof fn lemma_glyph_slot_exists(row: GlyphRow, x: u32)
    requires
        row.wf(),
        row.glyph_x[0] <= x,
    ensures
        exists|j: int|
            0 <= j < row.glyph_x.len() && (#[trigger] row.glyph_x[j]) <= x && (j + 1
                == row.glyph_x.len() || row.glyph_x[j + 1] > x),
{
    lemma_glyph_slot_exists_helper(row, x, row.glyph_x.len() - 1);
}

proof fn lemma_glyph_slot_exists_helper(row: GlyphRow, x: u32, m: int)
    requires
        row.wf(),
        row.glyph_x[0] <= x,
        0 <= m < row.glyph_x.len(),
        m + 1 == row.glyph_x.len() || row.glyph_x[m + 1] > x,
    ensures
        exists|j: int|
            0 <= j < row.glyph_x.len() && (#[trigger] row.glyph_x[j]) <= x && (j + 1
                == row.glyph_x.len() || row.glyph_x[j + 1] > x),
    decreases m,
{
    if row.glyph_x[m] <= x {
        assert(0 <= m < row.glyph_x.len() && row.glyph_x[m] <= x && (m + 1 == row.glyph_x.len()
            || row.glyph_x[m + 1] > x));
    } else {
        lemma_glyph_slot_exists_helper(row, x, m - 1);
    }
}

/// The glyph slot is unique.
pub proof fn lemma_glyph_slot_unique(row: GlyphRow, x: u32, j: int)
    requires
        row.wf(),
        0 <= j < row.glyph_x.len(),
        row.glyph_x[j] <= x,
        j + 1 == row.glyph_x.len() || row.glyph_x[j + 1] > x,
    ensures
        glyph_of_x(row, x) == j,
{
    assert(0 <= j < row.glyph_x.len() && row.glyph_x[j] <= x && (j + 1 == row.glyph_x.len()
        || row.glyph_x[j + 1] > x));
    let j2 = glyph_of_x(row, x);
    if j < j2 {
        assert(row.glyph_x[j + 1] <= row.glyph_x[j2] || j + 1 == j2);
    } else if j2 < j {
        assert(row.glyph_x[j2 + 1] <= row.glyph_x[j] || j2 + 1 == j);
    }
}

/// The row a point hits, when one exists.
pub open spec fn hit_row_of(l: LineLayout, p: PixelPoint) -> int {
    choose|k: int| l.hits_row(p, k)
}

/// The row whose lower gap a point falls into, when one exists.
pub open spec fn gap_row_of(l: LineLayout, p: PixelPoint) -> int {
    choose|k: int| l.in_gap_below(p, k)
}

/// Point-to-index resolution over the whole line: `Ok` with the byte index
/// of the glyph the point is on, or `Err` with the nearest boundary index
/// when the point misses every glyph.
pub open spec fn point_lookup(l: LineLayout, p: PixelPoint) -> Result<usize, usize> {
    if exists|k: int| l.hits_row(p, k) {
        glyph_slot(l.rows[hit_row_of(l, p)], p.x)
    } else if p.y < l.rows[0].y {
        Err(l.rows[0].start)
    } else if exists|k: int| l.in_gap_below(p, k) {
        Err(l.rows[gap_row_of(l, p)].end)
    } else {
        Err(l.rows[l.rows.len() - 1].end)
    }
}

/// Index-to-point resolution: the top-left corner of the glyph at `ix`, the
/// end of the last row for the one-past-the-end index, and `None` beyond.
pub open spec fn index_point(l: LineLayout, ix: int) -> Option<PixelPoint> {
    if ix > l.text_len() {
        None
    } else if ix == l.text_len() {
        Some(PixelPoint { x: l.rows[l.rows.len() - 1].end_x, y: l.rows[l.rows.len() - 1].y })
    } else {
        let k = row_of_index(l, ix);
        Some(
            PixelPoint {
                x: l.rows[k].glyph_x[ix - l.rows[k].start],
                y: l.rows[k].y,
            },
        )
    }
}

impl LineLayout {
    /// Resolves a point to the byte index of the glyph under it; `Err` holds
    /// the nearest boundary index when the point misses every glyph.
    #[verifier::rlimit(80)]
    pub fn index_for_position(&self, p: PixelPoint) -> (r: Result<usize, usize>)
        requires
            self.wf(),
        ensures
            r == point_lookup(*self, p),
    {
        let ghost l = *self;
        let mut k: usize = 0;
        while k < self.rows.len()
            invariant
                self.wf(),
                l == *self,
                0 <= k <= self.rows.len(),
                forall|r: int| 0 <= r < k ==> p.y >= (#[trigger] self.rows[r]).y + self.line_height,
            decreases self.rows.len() - k,
        {
            let row = &self.rows[k];
            if p.y < row.y {
                proof {
                    assert forall|j: int| !l.hits_row(p, j) by {
                        if 0 <= j < l.rows.len() {
                            if j < k {
                                assert(p.y >= l.rows[j].y + l.line_height);
                            } else if k < j {
                                lemma_rows_ordered(l, k as int, j);
                            }
                        }
                    }
                }
                if k == 0 {
                    return Err(self.rows[0].start);
                } else {
                    proof {
                        assert(l.in_gap_below(p, k - 1));
                        lemma_gap_row_unique(l, p, k - 1);
                        assert(p.y >= l.rows[0].y + l.line_height);
                    }
                    return Err(self.rows[k - 1].end);
                }
            } else if (p.y as u64) < row.y as u64 + self.line_height as u64 {
                proof {
                    assert(l.hits_row(p, k as int));
                    lemma_hit_row_unique_choose(l, p, k as int);
                }
                return self.glyph_in_row(k, p.x);
            }
            k = k + 1;
        }
        proof {
            assert forall|j: int| !l.hits_row(p, j) by {
                if 0 <= j < l.rows.len() {
                    assert(p.y >= l.rows[j].y + l.line_height);
                }
            }
            assert forall|j: int| !l.in_gap_below(p, j) by {
                if 0 <= j < l.rows.len() - 1 {
                    assert(p.y >= l.rows[j + 1].y + l.line_height);
                }
            }
            assert(p.y >= l.rows[0].y + l.line_height);
        }
        Err(self.rows[self.rows.len() - 1].end)
    }

    /// Finds the glyph slot for `x` within row `k`; `Ok` only.
    fn glyph_in_row(&self, k: usize, x: u32) -> (r: Result<usize, usize>)
        requires
            self.wf(),
            k < self.rows.len(),
        ensures
            r == glyph_slot(self.rows[k as int], x),
    {
        proof {
            assert(self.rows[k as int].wf());
        }
        let row = &self.rows[k];
        if x < row.glyph_x[0] {
            return Err(row.start);
        }
        if x >= row.end_x {
            return Err(row.end);
        }
        let mut j: usize = 0;
        while j + 1 < row.glyph_x.len() && row.glyph_x[j + 1] <= x
            invariant
                self.wf(),
                k < self.rows.len(),
                self.rows[k as int].wf(),
                row == self.rows[k as int],
                0 <= j < row.glyph_x.len(),
                row.glyph_x[j as int] <= x,
            decreases row.glyph_x.len() - j,
        {
            j = j + 1;
        }
        proof {
            lemma_glyph_slot_unique(self.rows[k as int], x, j as int);
        }
        Ok(row.start + j)
    }

    /// Resolves a byte index of the text to the top-left corner of its glyph
    /// (or the end of the last row for the one-past-the-end index).
    pub fn position_for_index(&self, ix: usize) -> (r: Option<PixelPoint>)
        requires
            self.wf(),
        ensures
            r == index_point(*self, ix as int),
    {
        let ghost l = *self;
        let last = self.rows.len() - 1;
        if ix > self.rows[last].end {
            return None;
        }
        if ix == self.rows[last].end {
            return Some(PixelPoint { x: self.rows[last].end_x, y: self.rows[last].y });
        }
        let mut k: usize = 0;
        loop
            invariant
                self.wf(),
                l == *self,
                0 <= k < self.rows.len(),
                ix < l.text_len(),
                ix >= self.rows[k as int].start,
            decreases self.rows.len() - k,
        {
            let row = &self.rows[k];
            if ix < row.end {
                proof {
                    assert(self.rows[k as int].wf());
                    lemma_row_of_index_unique(l, ix as int, k as int);
                }
                return Some(PixelPoint { x: row.glyph_x[ix - row.start], y: row.y });
            }
            proof {
                if k + 1 == l.rows.len() {
                    assert(l.text_len() == l.rows[k as int].end as int);
                    assert(false);
                }
            }
            k = k + 1;
        }
    }
}

/// At most one row has the point in its lower gap.
pub proof fn lemma_gap_row_unique(l: LineLayout, p: PixelPoint, k: int)
    requires
        l.wf(),
        l.in_gap_below(p, k),
    ensures
        gap_row_of(l, p) == k,
{
    assert(l.in_gap_below(p, k));
    let k2 = gap_row_of(l, p);
    if k + 1 < k2 {
        lemma_rows_ordered(l, k + 1, k2);
    } else if k2 + 1 < k {
        lemma_rows_ordered(l, k2 + 1, k);
    }
}

/// The chosen hit row is the given one.
pub proof fn lemma_hit_row_unique_choose(l: LineLayout, p: PixelPoint, k: int)
    requires
        l.wf(),
        l.hits_row(p, k),
    ensures
        hit_row_of(l, p) == k,
{
    assert(l.hits_row(p, k));
    lemma_hit_row_unique(l, p, hit_row_of(l, p), k);
}

/// Resolving a glyph's index to its point and back returns the same index.
pub proof fn lemma_layout_roundtrip(l: LineLayout, ix: int)
    requires
        l.wf(),
        0 <= ix < l.text_len(),
    ensures
        index_point(l, ix) is Some,
        point_lookup(l, index_point(l, ix).unwrap()) == Ok::<usize, usize>(ix as usize),
{
    lemma_row_exists(l, ix);
    let k = row_of_index(l, ix);
    let row = l.rows[k];
    let j0 = ix - row.start;
    let p = index_point(l, ix).unwrap();
    assert(p.x == row.glyph_x[j0] && p.y == row.y);
    assert(l.hits_row(p, k));
    lemma_hit_row_unique_choose(l, p, k);
    assert(row.wf());
    if j0 > 0 {
        assert(row.glyph_x[0] < row.glyph_x[j0]);
    }
    assert(!(p.x < row.glyph_x[0]));
    assert(p.x < row.end_x);
    lemma_glyph_slot_unique(row, p.x, j0);
    assert(glyph_slot(row, p.x) == Ok::<usize, usize>((row.start + j0) as usize));
}

/// The containing row of an index is unique.
pub proof fn lemma_row_of_index_unique(l: LineLayout, ix: int, k: int)
    requires
        l.wf(),
        0 <= k < l.rows.len(),
        l.rows[k].start <= ix < l.rows[k].end,
    ensures
        row_of_index(l, ix) == k,
{
    assert(0 <= k < l.rows.len() && l.rows[k].start <= ix < l.rows[k].end);
    let k2 = row_of_index(l, ix);
    if k2 < k {
        lemma_rows_ordered(l, k2, k);
    } else if k < k2 {
        lemma_rows_ordered(l, k, k2);
    }
}


/// Every index that a point resolves to lies within the text.
#[verifier::rlimit(50)]
pub proof fn lemma_point_lookup_bound(l: LineLayout, p: PixelPoint)
    requires
        l.wf(),
    ensures
        match point_lookup(l, p) {
            Ok(ix) => ix <= l.text_len(),
            Err(ix) => ix <= l.text_len(),
        },
{
    let last = l.rows.len() - 1;
    if exists|k: int| l.hits_row(p, k) {
        let k = hit_row_of(l, p);
        assert(l.hits_row(p, k));
        let row = l.rows[k];
        assert(row.wf());
        if k < last {
            lemma_rows_ordered(l, k, last);
        }
        match glyph_slot(row, p.x) {
            Ok(ix) => {
                if !(p.x < row.glyph_x[0]) && !(p.x >= row.end_x) {
                    lemma_glyph_slot_exists(row, p.x);
                    let j = glyph_of_x(row, p.x);
                    assert(row.start + j < row.end);
                }
            },
            Err(ix) => {},
        }
    } else if p.y < l.rows[0].y {
        if 0 < last {
            lemma_rows_ordered(l, 0, last);
        }
    } else if exists|k: int| l.in_gap_below(p, k) {
        let k = gap_row_of(l, p);
        assert(l.in_gap_below(p, k));
        if k < last {
            lemma_rows_ordered(l, k, last);
        }
    } else {
    }
}

} // verus!
