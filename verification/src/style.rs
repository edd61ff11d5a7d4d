//! The text-style overlay model and the splitting of code-block text into
//! styled runs at syntax-highlight boundaries.
//!
//! A style overlay (`StylePatch`) sets some fields and leaves others alone;
//! the active style is the base style with every overlay on the stack
//! applied in order, later entries overriding earlier ones.

use vstd::prelude::*;

verus! {

/// A concrete text style, the host's visual knobs reduced to plain values.
#[derive(Clone, Copy, Debug, PartialEq, Eq, Structural)]
pub struct TextStyleVals {
    /// Italic text.
    pub italic: bool,
    /// Bold text.
    pub bold: bool,
    /// Struck-through text.
    pub strikethrough: bool,
    /// Underlined text.
    pub underline: bool,
    /// The host's color handle.
    pub color: u32,
}

/// A partial style: each set field overrides the field below it.
#[derive(Clone, Copy, Debug, PartialEq, Eq, Structural)]
pub struct StylePatch {
    /// Overrides italics when set.
    pub italic: Option<bool>,
    /// Overrides boldness when set.
    pub bold: Option<bool>,
    /// Overrides strikethrough when set.
    pub strikethrough: Option<bool>,
    /// Overrides underline when set.
    pub underline: Option<bool>,
    /// Overrides the color when set.
    pub color: Option<u32>,
}

impl StylePatch {
    /// The patch that changes nothing.
    pub fn empty() -> (r: StylePatch)
        ensures
            r == (StylePatch {
                italic: None,
                bold: None,
                strikethrough: None,
                underline: None,
                color: None,
            }),
    {
        StylePatch { italic: None, bold: None, strikethrough: None, underline: None, color: None }
    }
}

/// A base style with one overlay applied.
pub open spec fn apply_patch(base: TextStyleVals, p: StylePatch) -> TextStyleVals {
    TextStyleVals {
        italic: if p.italic is Some {
            p.italic.unwrap()
        } else {
            base.italic
        },
        bold: if p.bold is Some {
            p.bold.unwrap()
        } else {
            base.bold
        },
        strikethrough: if p.strikethrough is Some {
            p.strikethrough.unwrap()
        } else {
            base.strikethrough
        },
        underline: if p.underline is Some {
            p.underline.unwrap()
        } else {
            base.underline
        },
        color: if p.color is Some {
            p.color.unwrap()
        } else {
            base.color
        },
    }
}

/// A base style with the first `n` overlays of a stack applied in order.
pub open spec fn folded_style(base: TextStyleVals, stack: Seq<StylePatch>, n: int) -> TextStyleVals
    decreases n when 0 <= n <= stack.len()
{
    if n <= 0 {
        base
    } else {
        apply_patch(folded_style(base, stack, n - 1), stack[n - 1])
    }
}

/// Applies one overlay to a base style.
pub fn refine(base: TextStyleVals, p: &StylePatch) -> (r: TextStyleVals)
    ensures
        r == apply_patch(base, *p),
{
    TextStyleVals {
        italic: match p.italic {
            Some(v) => v,
            None => base.italic,
        },
        bold: match p.bold {
            Some(v) => v,
            None => base.bold,
        },
        strikethrough: match p.strikethrough {
            Some(v) => v,
            None => base.strikethrough,
        },
        underline: match p.underline {
            Some(v) => v,
            None => base.underline,
        },
        color: match p.color {
            Some(v) => v,
            None => base.color,
        },
    }
}

/// Folds a whole overlay stack over a base style.
pub fn fold_styles(base: TextStyleVals, stack: &Vec<StylePatch>) -> (r: TextStyleVals)
    ensures
        r == folded_style(base, stack@, stack@.len() as int),
{
    let mut style = base;
    let mut i: usize = 0;
    while i < stack.len()
        invariant
            0 <= i <= stack@.len(),
            style == folded_style(base, stack@, i as int),
        decreases stack@.len() - i,
    {
        style = refine(style, &stack[i]);
        i = i + 1;
    }
    style
}

/// The markdown style sheet: a base style plus the overlay each construct
/// pushes while it is open.
#[derive(Clone, Copy, Debug, PartialEq, Eq, Structural)]
pub struct MarkdownStyle {
    /// The style of plain text.
    pub base_text_style: TextStyleVals,
    /// Overlay for headings.
    pub heading: StylePatch,
    /// Overlay for block quotes.
    pub block_quote: StylePatch,
    /// Overlay for inline code spans.
    pub inline_code: StylePatch,
    /// Overlay for link text.
    pub link: StylePatch,
    /// Overlay for code-block text, when the sheet defines one.
    pub code_block_text: Option<StylePatch>,
}

impl Default for MarkdownStyle {
    /// A style sheet that changes nothing anywhere.
    fn default() -> (r: MarkdownStyle)
        ensures
            r.code_block_text is None,
    {
        let no_patch = StylePatch {
            italic: None,
            bold: None,
            strikethrough: None,
            underline: None,
            color: None,
        };
        MarkdownStyle {
            base_text_style: TextStyleVals {
                italic: false,
                bold: false,
                strikethrough: false,
                underline: false,
                color: 0,
            },
            heading: no_patch,
            block_quote: no_patch,
            inline_code: no_patch,
            link: no_patch,
            code_block_text: None,
        }
    }
}

/// One styled run of rendered text: `len` bytes sharing a style and an
/// optional syntax-highlight class.
#[derive(Clone, Copy, Debug, PartialEq, Eq, Structural)]
pub struct TextRun {
    /// The run's length in bytes.
    pub len: usize,
    /// The run's style.
    pub style: TextStyleVals,
    /// The host's highlight class, for highlighted code.
    pub highlight: Option<u32>,
}

/// One syntax-highlight span inside a text fragment: a byte range with the
/// highlighter's classification.
#[derive(Clone, Copy, Debug, PartialEq, Eq, Structural)]
pub struct HighlightSpan {
    /// First byte of the span within the fragment.
    pub start: usize,
    /// One past the last byte of the span.
    pub end: usize,
    /// The host's highlight class.
    pub class: u32,
}

/// Well-formed highlighter output over a fragment of length `total`:
/// nonempty spans, in order, non-overlapping, within the fragment.
pub open spec fn spans_wf(spans: Seq<HighlightSpan>, total: int) -> bool {
    &&& forall|i: int|
        0 <= i < spans.len() ==> (#[trigger] spans[i]).start < spans[i].end <= total
    &&& forall|a: int, b: int|
        0 <= a < b < spans.len() ==> #[trigger] spans[a].end <= #[trigger] spans[b].start
}

/// The styled runs of a fragment of length `total`, split at highlight
/// boundaries from span `i` onward, the prefix up to `offset` already done:
/// unclassified gaps keep the ambient style.
pub open spec fn runs_for_spans(
    total: int,
    spans: Seq<HighlightSpan>,
    i: int,
    offset: int,
    style: TextStyleVals,
) -> Seq<TextRun>
    decreases spans.len() - i when 0 <= i <= spans.len()
{
    if i >= spans.len() {
        if offset < total {
            seq![
                TextRun { len: (total - offset) as usize, style, highlight: None },
            ]
        } else {
            Seq::empty()
        }
    } else {
        let sp = spans[i];
        let gap: Seq<TextRun> = if offset < sp.start {
            seq![
                TextRun { len: (sp.start - offset) as usize, style, highlight: None },
            ]
        } else {
            Seq::empty()
        };
        gap + seq![
            TextRun { len: (sp.end - sp.start) as usize, style, highlight: Some(sp.class) },
        ] + runs_for_spans(total, spans, i + 1, sp.end as int, style)
    }
}

/// Splits a fragment of length `total` into styled runs at the highlight
/// boundaries; gaps between spans keep the ambient style.
pub fn split_runs(total: usize, spans: &Vec<HighlightSpan>, style: TextStyleVals) -> (r: Vec<
    TextRun,
>)
    requires
        spans_wf(spans@, total as int),
    ensures
        r@ == runs_for_spans(total as int, spans@, 0, 0, style),
{
    let ghost full = runs_for_spans(total as int, spans@, 0, 0, style);
    let mut r: Vec<TextRun> = Vec::new();
    let mut i: usize = 0;
    let mut offset: usize = 0;
    while i < spans.len()
        invariant
            spans_wf(spans@, total as int),
            0 <= i <= spans@.len(),
            i < spans@.len() ==> offset <= spans@[i as int].start,
            i == spans@.len() ==> offset <= total,
            full =~= r@ + runs_for_spans(total as int, spans@, i as int, offset as int, style),
        decreases spans@.len() - i,
    {
        let sp = spans[i];
        let ghost before = r@;
        if offset < sp.start {
            r.push(TextRun { len: sp.start - offset, style, highlight: None });
        }
        r.push(TextRun { len: sp.end - sp.start, style, highlight: Some(sp.class) });
        proof {
            if i + 1 < spans@.len() {
                assert(spans@[i as int].end <= spans@[i + 1].start);
            }
            assert(full =~= r@ + runs_for_spans(
                total as int,
                spans@,
                i + 1,
                spans@[i as int].end as int,
                style,
            ));
        }
        offset = sp.end;
        i = i + 1;
    }
    if offset < total {
        r.push(TextRun { len: total - offset, style, highlight: None });
    }
    proof {
        assert(full =~= r@);
    }
    r
}

/// The total length of a run list.
pub open spec fn runs_len(runs: Seq<TextRun>, n: int) -> int
    decreases n when 0 <= n <= runs.len()
{
    if n <= 0 {
        0
    } else {
        runs_len(runs, n - 1) + runs[n - 1].len
    }
}

/// The total length of a whole run list.
pub open spec fn runs_total(runs: Seq<TextRun>) -> int {
    runs_len(runs, runs.len() as int)
}

/// `runs_len` reads only the first `n` runs.
pub proof fn lemma_runs_len_agree(s1: Seq<TextRun>, s2: Seq<TextRun>, n: int)
    requires
        0 <= n <= s1.len(),
        n <= s2.len(),
        forall|j: int| 0 <= j < n ==> s1[j] == s2[j],
    ensures
        runs_len(s1, n) == runs_len(s2, n),
    decreases n,
{
    if n > 0 {
        lemma_runs_len_agree(s1, s2, n - 1);
    }
}

/// Concatenating run lists adds their total lengths.
pub proof fn lemma_runs_total_concat(a: Seq<TextRun>, b: Seq<TextRun>)
    ensures
        runs_total(a + b) == runs_total(a) + runs_total(b),
    decreases b.len(),
{
    if b.len() == 0 {
        assert(a + b =~= a);
        lemma_runs_len_agree(a + b, a, a.len() as int);
    } else {
        lemma_runs_total_concat(a, b.drop_last());
        let ab = a + b;
        assert(a + b.drop_last() =~= ab.drop_last());
        assert(runs_len(ab, ab.len() as int) == runs_len(ab, ab.len() - 1) + ab[ab.len()
            - 1].len);
        lemma_runs_len_agree(ab, ab.drop_last(), ab.len() - 1);
        assert(ab[ab.len() - 1] == b[b.len() - 1]);
        assert(runs_len(b, b.len() as int) == runs_len(b, b.len() - 1) + b[b.len() - 1].len);
        lemma_runs_len_agree(b, b.drop_last(), b.len() - 1);
    }
}

/// Runs split at highlight boundaries cover the fragment exactly, and every
/// run is nonempty.
pub proof fn lemma_runs_for_spans_len(
    total: int,
    spans: Seq<HighlightSpan>,
    i: int,
    offset: int,
    style: TextStyleVals,
)
    requires
        spans_wf(spans, total),
        total <= usize::MAX,
        0 <= i <= spans.len(),
        0 <= offset <= total,
        i < spans.len() ==> offset <= spans[i].start,
    ensures
        ({
            let rs = runs_for_spans(total, spans, i, offset, style);
            &&& runs_total(rs) == total - offset
            &&& forall|j: int| 0 <= j < rs.len() ==> (#[trigger] rs[j]).len >= 1
        }),
    decreases spans.len() - i,
{
    let rs = runs_for_spans(total, spans, i, offset, style);
    if i >= spans.len() {
        if offset < total {
            assert(rs =~= seq![
                TextRun { len: (total - offset) as usize, style, highlight: None },
            ]);
            assert(runs_len(rs, 1) == runs_len(rs, 0) + rs[0].len);
        } else {
            assert(rs =~= Seq::<TextRun>::empty());
        }
    } else {
        let sp = spans[i];
        assert(spans[i].start < spans[i].end <= total);
        if i + 1 < spans.len() {
            assert(spans[i].end <= spans[i + 1].start);
        }
        lemma_runs_for_spans_len(total, spans, i + 1, sp.end as int, style);
        let rest = runs_for_spans(total, spans, i + 1, sp.end as int, style);
        let gap: Seq<TextRun> = if offset < sp.start {
            seq![
                TextRun { len: (sp.start - offset) as usize, style, highlight: None },
            ]
        } else {
            Seq::empty()
        };
        let mid = seq![
            TextRun { len: (sp.end - sp.start) as usize, style, highlight: Some(sp.class) },
        ];
        lemma_runs_total_concat(gap + mid, rest);
        lemma_runs_total_concat(gap, mid);
        if offset < sp.start {
            assert(runs_len(gap, 1) == runs_len(gap, 0) + gap[0].len);
            assert(runs_total(gap) == sp.start - offset);
        } else {
            assert(runs_total(gap) == 0);
        }
        assert(runs_len(mid, 1) == runs_len(mid, 0) + mid[0].len);
        assert(runs_total(mid) == sp.end - sp.start);
        assert(runs_total(rest) == total - sp.end);
        assert(rs =~= (gap + mid) + rest);
        lemma_runs_len_agree(rs, (gap + mid) + rest, rs.len() as int);
        assert(runs_total(rs) == runs_total((gap + mid) + rest));
        assert(runs_total((gap + mid) + rest) == runs_total(gap + mid) + runs_total(rest));
        assert(runs_total(gap + mid) == runs_total(gap) + runs_total(mid));
        assert(runs_total(rs) == total - offset);
        assert(spans[i].start < spans[i].end);
        assert forall|j: int| 0 <= j < rs.len() implies (#[trigger] rs[j]).len >= 1 by {
            if j < gap.len() {
                assert(rs[j] == gap[0]);
            } else if j < gap.len() + 1 {
                assert(rs[j] == mid[0]);
            } else {
                assert(rs[j] == rest[j - gap.len() - 1]);
            }
        }
    }
}

} // verus!
