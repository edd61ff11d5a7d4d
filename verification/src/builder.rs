//! The render-tree builder: a single pass over the parsed event sequence
//! that produces a tree of visual blocks and the rendered-text index.
//!
//! The builder keeps a stack of open containers, a stack of text-style
//! overlays, and a pending-line accumulator; a line is flushed whenever a
//! container boundary requires it.  Every start tag records what it pushed,
//! and its end tag pops exactly that.  A close tag whose kind does not
//! match the innermost open record marks a malformed stream — a parser bug
//! a host may want to treat as fatal while developing; this builder never
//! panics, so it skips the tag and renders what it can.

use vstd::prelude::*;

use crate::events::MdAlign;
use crate::events::MdEvent;
use crate::events::MdEventItem;
use crate::events::MdHeading;
use crate::events::MdTag;
use crate::events::MdTagEnd;
use crate::events::CodeFence;
use crate::events::LanguageBinding;
use crate::rendered::RenderedLine;
use crate::rendered::RenderedLink;
use crate::rendered::RenderedText;
use crate::rendered::SourceMapping;
use crate::style::HighlightSpan;
use crate::style::StylePatch;
use crate::style::TextRun;
use crate::style::TextStyleVals;

verus! {

/// What kind of visual block a tree node is.
#[derive(Clone, Debug)]
pub enum BlockKind {
    /// The root container.
    Root,
    /// A paragraph.
    Paragraph,
    /// A heading with its level.
    Heading(MdHeading),
    /// A block quote.
    BlockQuote,
    /// The positioning container around a code block.
    CodeBlockWrapper,
    /// A code block, with its resolved language handle if any.
    CodeBlock(Option<u64>),
    /// A block of raw HTML.
    HtmlBlock,
    /// A list container.
    List,
    /// A list item's bullet row; `Some` holds an ordered bullet number.
    Item(Option<u64>),
    /// The body of a list item.
    ItemBody,
    /// A horizontal rule.
    Rule,
    /// A table's outer container.
    Table,
    /// A table's inner row stack.
    TableInner,
    /// A table's header row.
    TableHead,
    /// A table body row.
    TableRow,
    /// A table cell; the field is the table's column count, every cell
    /// taking an equal share of the width.
    TableCell(usize),
}

/// A node of the render tree.
#[derive(Debug)]
pub enum MdNode {
    /// A container block with its children.
    Block(BlockNode),
    /// One rendered line: an index into the rendered-text line list, with
    /// the styled runs to draw it with.
    TextLine { line: usize, runs: Vec<TextRun> },
}

/// A container block.
#[derive(Debug)]
pub struct BlockNode {
    /// What the block is.
    pub kind: BlockKind,
    /// The first top-level block drops its top margin.
    pub suppress_top_margin: bool,
    /// The last top-level block drops its bottom margin.
    pub suppress_bottom_margin: bool,
    /// For a code block's wrapper: the block's contents with fences
    /// stripped, ready for the copy button.
    pub copy_code: Option<Vec<u8>>,
    /// Child nodes in rendering order.
    pub children: Vec<MdNode>,
}

/// The built render tree plus the rendered-text index.
pub struct RenderedMarkdown {
    /// The root visual element.
    pub root: BlockNode,
    /// The rendered-text index for the interactive layer.
    pub text: RenderedText,
}

/// What one start tag pushed, so its end tag pops exactly that.
#[derive(Clone, Copy, Debug, PartialEq, Eq, Structural)]
pub struct OpenRec {
    /// The end tag that closes this record.
    pub end_kind: MdTagEnd,
    /// How many containers were pushed.
    pub divs: u8,
    /// How many style overlays were pushed.
    pub styles: u8,
    /// Whether a code-block entry was pushed.
    pub code: bool,
    /// Whether a list entry was pushed.
    pub list: bool,
    /// Whether this tag set the table alignments.
    pub table: bool,
}

/// Appends the bytes of `src` to `dst`.
pub fn extend_bytes(dst: &mut Vec<u8>, src: &Vec<u8>)
    ensures
        final(dst)@ == old(dst)@ + src@,
{
    let mut j: usize = 0;
    while j < src.len()
        invariant
            0 <= j <= src@.len(),
            dst@ == old(dst)@ + src@.subrange(0, j as int),
        decreases src@.len() - j,
    {
        dst.push(src[j]);
        proof {
            assert(dst@ =~= old(dst)@ + src@.subrange(0, j + 1));
        }
        j = j + 1;
    }
    proof {
        assert(src@.subrange(0, src@.len() as int) =~= src@);
    }
}

/// Appends the runs of `src` to `dst`.
fn extend_runs(dst: &mut Vec<TextRun>, src: &Vec<TextRun>)
    ensures
        final(dst)@ == old(dst)@ + src@,
{
    let mut j: usize = 0;
    while j < src.len()
        invariant
            0 <= j <= src@.len(),
            dst@ == old(dst)@ + src@.subrange(0, j as int),
        decreases src@.len() - j,
    {
        dst.push(src[j]);
        proof {
            assert(dst@ =~= old(dst)@ + src@.subrange(0, j + 1));
        }
        j = j + 1;
    }
    proof {
        assert(src@.subrange(0, src@.len() as int) =~= src@);
    }
}

/// Copies a list of column alignments.
fn copy_aligns(src: &Vec<MdAlign>) -> (r: Vec<MdAlign>)
    ensures
        r@ == src@,
{
    let mut r: Vec<MdAlign> = Vec::new();
    let mut j: usize = 0;
    while j < src.len()
        invariant
            0 <= j <= src@.len(),
            r@ == src@.subrange(0, j as int),
        decreases src@.len() - j,
    {
        r.push(src[j]);
        proof {
            assert(r@ =~= src@.subrange(0, j + 1));
        }
        j = j + 1;
    }
    proof {
        assert(src@.subrange(0, src@.len() as int) =~= src@);
    }
    r
}

/// The mutable builder state.
pub struct MarkdownElementBuilder {
    /// Open containers; the bottom element is the root.
    pub div_stack: Vec<BlockNode>,
    /// One record per open tag.
    pub open_records: Vec<OpenRec>,
    /// Lines flushed so far.
    pub rendered_lines: Vec<RenderedLine>,
    /// Bytes of the pending line.
    pub pending_text: Vec<u8>,
    /// Styled runs of the pending line.
    pub pending_runs: Vec<TextRun>,
    /// Anchor points of the pending line.
    pub pending_mappings: Vec<SourceMapping>,
    /// The source offset one past the last pushed fragment.
    pub current_source_index: usize,
    /// The base text style.
    pub base_text_style: TextStyleVals,
    /// The active style overlays.
    pub text_style_stack: Vec<StylePatch>,
    /// The languages of open code blocks, innermost last.
    pub code_block_stack: Vec<Option<u64>>,
    /// The bullet counters of open lists, innermost last.
    pub list_stack: Vec<Option<u64>>,
    /// The current table's column alignments.
    pub table_alignments: Vec<MdAlign>,
}

impl MarkdownElementBuilder {
    /// The builder's invariant: the pending line is always one flush away
    /// from a well-formed rendered line, and the flushed lines are well
    /// formed and ordered by source span.
    pub open spec fn wf(self) -> bool {
        let ms = self.pending_mappings;
        let tl = self.pending_text@.len() as int;
        &&& self.div_stack.len() >= 1
        &&& (tl == 0 <==> ms.len() == 0)
        &&& ms.len() > 0 ==> ms[0].rendered_index == 0
        &&& forall|a: int, b: int|
            0 <= a < b < ms.len() ==> #[trigger] ms[b].rendered_index > #[trigger] ms[
                a].rendered_index
        &&& forall|a: int, b: int|
            0 <= a < b < ms.len() ==> #[trigger] ms[b].source_index - #[trigger] ms[a].source_index
                >= ms[b].rendered_index - ms[a].rendered_index
        &&& forall|i: int| 0 <= i < ms.len() ==> (#[trigger] ms[i]).rendered_index <= tl
        &&& ms.len() > 0 ==> ms[ms.len() - 1].source_index + tl == self.current_source_index + ms[
            ms.len() - 1].rendered_index
        &&& tl <= self.current_source_index
        &&& self.current_source_index <= usize::MAX / 2
        &&& crate::style::runs_total(self.pending_runs@) == tl
        &&& forall|i: int|
            0 <= i < self.pending_runs.len() ==> (#[trigger] self.pending_runs[i]).len >= 1
        &&& forall|i: int| 0 <= i < self.rendered_lines.len() ==> #[trigger] self.rendered_lines[
            i].wf()
        &&& forall|a: int, b: int|
            0 <= a < b < self.rendered_lines.len() ==> #[trigger] self.rendered_lines[
                b].source_start() >= #[trigger] self.rendered_lines[a].source_end
        &&& forall|i: int|
            0 <= i < self.rendered_lines.len() ==> (#[trigger] self.rendered_lines[i]).source_end
                <= self.floor()
    }

    /// No fragment may begin before this source offset.
    pub open spec fn floor(self) -> int {
        if self.pending_mappings.len() > 0 {
            self.pending_mappings[0].source_index as int
        } else {
            self.current_source_index as int
        }
    }

    /// The style text is currently drawn with: the base style under every
    /// overlay on the stack.
    pub open spec fn active_style(self) -> TextStyleVals {
        crate::style::folded_style(
            self.base_text_style,
            self.text_style_stack@,
            self.text_style_stack@.len() as int,
        )
    }

    /// The runs one fragment contributes: split at the highlight boundaries
    /// inside a code block with a resolved language, one ambient-style run
    /// everywhere else.
    pub open spec fn pushed_runs(self, total: usize, spans: Seq<HighlightSpan>) -> Seq<TextRun> {
        if self.code_block_stack@.len() > 0 && self.code_block_stack@[self.code_block_stack@.len()
            - 1] is Some {
            crate::style::runs_for_spans(total as int, spans, 0, 0, self.active_style())
        } else {
            seq![TextRun { len: total, style: self.active_style(), highlight: None }]
        }
    }

    /// Whether the pending line ends with a newline, the byte the trim
    /// removes.
    pub open spec fn ends_with_newline(b: MarkdownElementBuilder) -> bool {
        &&& b.pending_text@.len() > 0
        &&& b.pending_text@[b.pending_text@.len() - 1] == crate::text::NEWLINE
    }

    /// The pending line can take another fragment: its last anchor still
    /// has rendered text after it (false only right after a trim, which is
    /// always followed by a flush).
    pub open spec fn pushable(self) -> bool {
        self.pending_mappings.len() > 0 ==> self.pending_mappings[self.pending_mappings.len()
            - 1].rendered_index < self.pending_text@.len()
    }

    /// The exact effect of a flush: an empty pending line changes nothing;
    /// otherwise one rendered line carrying the pending text, anchors and
    /// cursor is appended, a text leaf with the pending runs is attached to
    /// the open container, and the pending line is reset.
    pub open spec fn flush_effect(pre: MarkdownElementBuilder, post: MarkdownElementBuilder) -> bool {
        if pre.pending_text@.len() == 0 {
            post == pre
        } else {
            let n = pre.div_stack@.len() as int;
            let pre_top = pre.div_stack@[n - 1];
            let post_top = post.div_stack@[n - 1];
            let new_line = post.rendered_lines@[post.rendered_lines@.len() - 1];
            &&& post.pending_text@.len() == 0
            &&& post.pending_mappings@.len() == 0
            &&& post.pending_runs@.len() == 0
            &&& post.current_source_index == pre.current_source_index
            &&& post.rendered_lines@.len() == pre.rendered_lines@.len() + 1
            &&& forall|i: int|
                0 <= i < pre.rendered_lines@.len() ==> post.rendered_lines@[i]
                    == pre.rendered_lines@[i]
            &&& new_line.text == pre.pending_text
            &&& new_line.source_mappings == pre.pending_mappings
            &&& new_line.source_end == pre.current_source_index
            &&& post.div_stack@.len() == n
            &&& forall|i: int| 0 <= i < n - 1 ==> post.div_stack@[i] == pre.div_stack@[i]
            &&& post_top.kind == pre_top.kind
            &&& post_top.suppress_top_margin == pre_top.suppress_top_margin
            &&& post_top.suppress_bottom_margin == pre_top.suppress_bottom_margin
            &&& post_top.copy_code == pre_top.copy_code
            &&& post_top.children@ == pre_top.children@.push(
                MdNode::TextLine {
                    line: pre.rendered_lines@.len() as usize,
                    runs: pre.pending_runs,
                },
            )
            &&& post.open_records == pre.open_records
            &&& post.base_text_style == pre.base_text_style
            &&& post.text_style_stack == pre.text_style_stack
            &&& post.code_block_stack == pre.code_block_stack
            &&& post.list_stack == pre.list_stack
            &&& post.table_alignments == pre.table_alignments
        }
    }

    /// A fresh builder holding only the root container.
    pub fn new(base_text_style: TextStyleVals) -> (r: MarkdownElementBuilder)
        ensures
            r.wf(),
            r.pushable(),
            r.rendered_lines@.len() == 0,
            r.div_stack@.len() == 1,
            r.current_source_index == 0,
            r.pending_text@.len() == 0,
            r.open_records@.len() == 0,
    {
        let mut div_stack: Vec<BlockNode> = Vec::new();
        div_stack.push(
            BlockNode {
                kind: BlockKind::Root,
                suppress_top_margin: false,
                suppress_bottom_margin: false,
                copy_code: None,
                children: Vec::new(),
            },
        );
        MarkdownElementBuilder {
            div_stack,
            open_records: Vec::new(),
            rendered_lines: Vec::new(),
            pending_text: Vec::new(),
            pending_runs: Vec::new(),
            pending_mappings: Vec::new(),
            current_source_index: 0,
            base_text_style,
            text_style_stack: Vec::new(),
            code_block_stack: Vec::new(),
            list_stack: Vec::new(),
            table_alignments: Vec::new(),
        }
    }

    /// Pushes a style overlay.
    pub fn push_text_style(&mut self, style: StylePatch)
        requires
            old(self).wf(),
        ensures
            final(self).wf(),
            final(self).pushable() == old(self).pushable(),
            final(self).floor() == old(self).floor(),
            final(self).text_style_stack@ == old(self).text_style_stack@.push(style),
            *final(self) == (MarkdownElementBuilder {
                text_style_stack: final(self).text_style_stack,
                ..*old(self)
            }),
    {
        self.text_style_stack.push(style);
    }

    /// The active style: the base style with every overlay applied.
    pub fn text_style(&self) -> (r: TextStyleVals)
        ensures
            r == crate::style::folded_style(
                self.base_text_style,
                self.text_style_stack@,
                self.text_style_stack@.len() as int,
            ),
    {
        crate::style::fold_styles(self.base_text_style, &self.text_style_stack)
    }

    /// Pops a style overlay; popping past the bottom does nothing.
    pub fn pop_text_style(&mut self)
        requires
            old(self).wf(),
        ensures
            final(self).wf(),
            final(self).pushable() == old(self).pushable(),
            final(self).floor() == old(self).floor(),
            old(self).text_style_stack@.len() == 0 ==> *final(self) == *old(self),
            old(self).text_style_stack@.len() > 0 ==> final(self).text_style_stack@ == old(
                self,
            ).text_style_stack@.drop_last(),
            *final(self) == (MarkdownElementBuilder {
                text_style_stack: final(self).text_style_stack,
                ..*old(self)
            }),
    {
        if self.text_style_stack.len() > 0 {
            let _ = self.text_style_stack.pop();
        }
    }

    /// Opens a container.  The first top-level block (range starting at
    /// offset zero) drops its top margin; the last one (range ending at the
    /// document's end) drops its bottom margin.
    pub fn push_div(
        &mut self,
        kind: BlockKind,
        range_start: usize,
        range_end: usize,
        markdown_end: usize,
    )
        requires
            old(self).wf(),
        ensures
            final(self).wf(),
            final(self).pushable(),
            final(self).floor() >= old(self).floor(),
            final(self).current_source_index == old(self).current_source_index,
            exists|mid: MarkdownElementBuilder|
                {
                    let top = final(self).div_stack@[final(self).div_stack@.len() - 1];
                    &&& #[trigger] Self::flush_effect(*old(self), mid)
                    &&& final(self).div_stack@.len() == mid.div_stack@.len() + 1
                    &&& forall|i: int|
                        0 <= i < mid.div_stack@.len() ==> final(self).div_stack@[i]
                            == mid.div_stack@[i]
                    &&& top.kind == kind
                    &&& top.suppress_top_margin == (range_start == 0)
                    &&& top.suppress_bottom_margin == (range_end == markdown_end)
                    &&& top.copy_code is None
                    &&& top.children@.len() == 0
                    &&& *final(self) == (MarkdownElementBuilder {
                        div_stack: final(self).div_stack,
                        ..mid
                    })
                },
            texts_of(final(self).rendered_lines@) == texts_of(old(self).rendered_lines@) + old(
                self,
            ).pending_text@,
            final(self).pending_text@.len() == 0,
            rec_kinds(*final(self)) == rec_kinds(*old(self)),
            final(self).text_style_stack == old(self).text_style_stack,
            final(self).code_block_stack == old(self).code_block_stack,
            final(self).list_stack == old(self).list_stack,
    {
        self.flush_text();
        let ghost mid = *self;
        self.div_stack.push(
            BlockNode {
                kind,
                suppress_top_margin: range_start == 0,
                suppress_bottom_margin: range_end == markdown_end,
                copy_code: None,
                children: Vec::new(),
            },
        );
        proof {
            assert(Self::flush_effect(*old(self), mid));
        }
    }

    /// Closes the top container, attaching it to its parent; with only the
    /// root open this does nothing.
    pub fn pop_div(&mut self)
        requires
            old(self).wf(),
        ensures
            final(self).wf(),
            final(self).pushable(),
            final(self).floor() >= old(self).floor(),
            final(self).current_source_index == old(self).current_source_index,
            exists|mid: MarkdownElementBuilder|
                {
                    &&& #[trigger] Self::flush_effect(*old(self), mid)
                    &&& (mid.div_stack@.len() == 1 ==> *final(self) == mid)
                    &&& (mid.div_stack@.len() >= 2 ==> ({
                        let m = mid.div_stack@.len() as int;
                        let closed = mid.div_stack@[m - 1];
                        let under = mid.div_stack@[m - 2];
                        let top = final(self).div_stack@[m - 2];
                        &&& final(self).div_stack@.len() == m - 1
                        &&& forall|i: int|
                            0 <= i < m - 2 ==> final(self).div_stack@[i] == mid.div_stack@[i]
                        &&& top.kind == under.kind
                        &&& top.suppress_top_margin == under.suppress_top_margin
                        &&& top.suppress_bottom_margin == under.suppress_bottom_margin
                        &&& top.copy_code == under.copy_code
                        &&& top.children@ == under.children@.push(MdNode::Block(closed))
                        &&& *final(self) == (MarkdownElementBuilder {
                            div_stack: final(self).div_stack,
                            ..mid
                        })
                    }))
                },
            texts_of(final(self).rendered_lines@) == texts_of(old(self).rendered_lines@) + old(
                self,
            ).pending_text@,
            final(self).pending_text@.len() == 0,
            rec_kinds(*final(self)) == rec_kinds(*old(self)),
            final(self).text_style_stack == old(self).text_style_stack,
            final(self).code_block_stack == old(self).code_block_stack,
            final(self).list_stack == old(self).list_stack,
    {
        self.flush_text();
        let ghost mid = *self;
        if self.div_stack.len() >= 2 {
            let closed = self.div_stack.pop();
            if let Some(c) = closed {
                let parent = self.div_stack.pop();
                if let Some(mut p) = parent {
                    p.children.push(MdNode::Block(c));
                    self.div_stack.push(p);
                }
            }
        }
        proof {
            assert(Self::flush_effect(*old(self), mid));
        }
    }

    /// Stores the stripped code-block text on the top container, for the
    /// copy button.
    pub fn set_copy_code(&mut self, code: Vec<u8>)
        requires
            old(self).wf(),
        ensures
            final(self).wf(),
            final(self).pushable(),
            final(self).floor() >= old(self).floor(),
            final(self).current_source_index == old(self).current_source_index,
            exists|mid: MarkdownElementBuilder|
                {
                    let m = mid.div_stack@.len() as int;
                    let top = final(self).div_stack@[m - 1];
                    let mid_top = mid.div_stack@[m - 1];
                    &&& #[trigger] Self::flush_effect(*old(self), mid)
                    &&& final(self).div_stack@.len() == m
                    &&& forall|i: int|
                        0 <= i < m - 1 ==> final(self).div_stack@[i] == mid.div_stack@[i]
                    &&& top.kind == mid_top.kind
                    &&& top.suppress_top_margin == mid_top.suppress_top_margin
                    &&& top.suppress_bottom_margin == mid_top.suppress_bottom_margin
                    &&& top.copy_code == Some(code)
                    &&& top.children == mid_top.children
                    &&& *final(self) == (MarkdownElementBuilder {
                        div_stack: final(self).div_stack,
                        ..mid
                    })
                },
            texts_of(final(self).rendered_lines@) == texts_of(old(self).rendered_lines@) + old(
                self,
            ).pending_text@,
            final(self).pending_text@.len() == 0,
            rec_kinds(*final(self)) == rec_kinds(*old(self)),
            final(self).text_style_stack == old(self).text_style_stack,
            final(self).code_block_stack == old(self).code_block_stack,
            final(self).list_stack == old(self).list_stack,
    {
        self.flush_text();
        let ghost mid = *self;
        let top = self.div_stack.pop();
        if let Some(mut t) = top {
            t.copy_code = Some(code);
            self.div_stack.push(t);
        }
        proof {
            assert(Self::flush_effect(*old(self), mid));
        }
    }

    /// Opens a list; `Some` starts an ordered list's bullet counter.
    pub fn push_list(&mut self, bullet_index: Option<u64>)
        requires
            old(self).wf(),
        ensures
            final(self).wf(),
            final(self).pushable() == old(self).pushable(),
            final(self).floor() == old(self).floor(),
            final(self).list_stack@ == old(self).list_stack@.push(bullet_index),
            *final(self) == (MarkdownElementBuilder {
                list_stack: final(self).list_stack,
                ..*old(self)
            }),
    {
        self.list_stack.push(bullet_index);
    }

    /// The next ordered-list bullet number, advancing the counter; `None`
    /// in an unordered list or outside any list.
    pub fn next_bullet_index(&mut self) -> (r: Option<u64>)
        requires
            old(self).wf(),
        ensures
            final(self).wf(),
            final(self).pushable() == old(self).pushable(),
            final(self).floor() == old(self).floor(),
            old(self).list_stack@.len() == 0 ==> r is None && *final(self) == *old(self),
            old(self).list_stack@.len() > 0 ==> ({
                let m = old(self).list_stack@.len() as int;
                &&& r == old(self).list_stack@[m - 1]
                &&& (old(self).list_stack@[m - 1] is None ==> *final(self) == *old(self))
                &&& (old(self).list_stack@[m - 1] matches Some(n) ==> ({
                    &&& final(self).list_stack@ == old(self).list_stack@.update(
                        m - 1,
                        Some(
                            if n == u64::MAX {
                                u64::MAX
                            } else {
                                (n + 1) as u64
                            },
                        ),
                    )
                    &&& *final(self) == (MarkdownElementBuilder {
                        list_stack: final(self).list_stack,
                        ..*old(self)
                    })
                }))
            }),
    {
        let n = self.list_stack.len();
        if n == 0 {
            return None;
        }
        match self.list_stack[n - 1] {
            Some(ix) => {
                let nx: u64 = if ix == u64::MAX {
                    u64::MAX
                } else {
                    ix + 1
                };
                self.list_stack.set(n - 1, Some(nx));
                Some(ix)
            },
            None => None,
        }
    }

    /// Closes a list.
    pub fn pop_list(&mut self)
        requires
            old(self).wf(),
        ensures
            final(self).wf(),
            final(self).pushable() == old(self).pushable(),
            final(self).floor() == old(self).floor(),
            old(self).list_stack@.len() == 0 ==> *final(self) == *old(self),
            old(self).list_stack@.len() > 0 ==> final(self).list_stack@ == old(
                self,
            ).list_stack@.drop_last(),
            *final(self) == (MarkdownElementBuilder {
                list_stack: final(self).list_stack,
                ..*old(self)
            }),
    {
        if self.list_stack.len() > 0 {
            let _ = self.list_stack.pop();
        }
    }

    /// Opens a code block with its resolved language, if any.
    pub fn push_code_block(&mut self, language: Option<u64>)
        requires
            old(self).wf(),
        ensures
            final(self).wf(),
            final(self).pushable() == old(self).pushable(),
            final(self).floor() == old(self).floor(),
            final(self).code_block_stack@ == old(self).code_block_stack@.push(language),
            *final(self) == (MarkdownElementBuilder {
                code_block_stack: final(self).code_block_stack,
                ..*old(self)
            }),
    {
        self.code_block_stack.push(language);
    }

    /// Closes a code block.
    pub fn pop_code_block(&mut self)
        requires
            old(self).wf(),
        ensures
            final(self).wf(),
            final(self).pushable() == old(self).pushable(),
            final(self).floor() == old(self).floor(),
            old(self).code_block_stack@.len() == 0 ==> *final(self) == *old(self),
            old(self).code_block_stack@.len() > 0 ==> final(self).code_block_stack@ == old(
                self,
            ).code_block_stack@.drop_last(),
            *final(self) == (MarkdownElementBuilder {
                code_block_stack: final(self).code_block_stack,
                ..*old(self)
            }),
    {
        if self.code_block_stack.len() > 0 {
            let _ = self.code_block_stack.pop();
        }
    }

    /// Appends a text fragment to the pending line, recording the anchor
    /// from its rendered position to its source position.  Inside a code
    /// block with a resolved language the fragment is split into runs at
    /// the given highlight boundaries; elsewhere it becomes one run in the
    /// active style.
    pub fn push_text(&mut self, frag: &Vec<u8>, source_index: usize, spans: &Vec<HighlightSpan>)
        requires
            old(self).wf(),
            old(self).pushable(),
            source_index >= old(self).current_source_index,
            source_index + frag@.len() <= usize::MAX / 2,
            crate::style::spans_wf(spans@, frag@.len() as int),
        ensures
            final(self).wf(),
            final(self).pushable(),
            frag@.len() == 0 ==> *final(self) == *old(self),
            frag@.len() > 0 ==> ({
                &&& final(self).current_source_index == source_index + frag@.len()
                &&& final(self).pending_text@ == old(self).pending_text@ + frag@
                &&& final(self).pending_mappings@ == old(self).pending_mappings@.push(
                    SourceMapping {
                        rendered_index: old(self).pending_text@.len() as usize,
                        source_index,
                    },
                )
                &&& final(self).pending_runs@ == old(self).pending_runs@ + old(self).pushed_runs(
                    frag@.len() as usize,
                    spans@,
                )
                &&& *final(self) == (MarkdownElementBuilder {
                    pending_text: final(self).pending_text,
                    pending_mappings: final(self).pending_mappings,
                    pending_runs: final(self).pending_runs,
                    current_source_index: final(self).current_source_index,
                    ..*old(self)
                })
            }),
            final(self).floor() >= old(self).floor(),
    {
        if frag.len() == 0 {
            proof {
                assert(self.pending_text@ + frag@ =~= self.pending_text@);
            }
            return ;
        }
        let ghost oldb = *self;
        let rendered_index = self.pending_text.len();
        self.pending_mappings.push(SourceMapping { rendered_index, source_index });
        extend_bytes(&mut self.pending_text, frag);
        let style = self.text_style();
        let n = self.code_block_stack.len();
        let highlighted = n > 0 && self.code_block_stack[n - 1].is_some();
        let new_runs: Vec<TextRun> = if highlighted {
            crate::style::split_runs(frag.len(), spans, style)
        } else {
            let mut one: Vec<TextRun> = Vec::new();
            one.push(TextRun { len: frag.len(), style, highlight: None });
            one
        };
        proof {
            if highlighted {
                crate::style::lemma_runs_for_spans_len(frag@.len() as int, spans@, 0, 0, style);
            } else {
                assert(crate::style::runs_len(new_runs@, 1) == crate::style::runs_len(new_runs@, 0)
                    + new_runs@[0].len);
            }
            assert(new_runs@ =~= oldb.pushed_runs(frag@.len() as usize, spans@));
        }
        extend_runs(&mut self.pending_runs, &new_runs);
        self.current_source_index = source_index + frag.len();
        proof {
            crate::style::lemma_runs_total_concat(oldb.pending_runs@, new_runs@);
            let ms = self.pending_mappings;
            let oms = oldb.pending_mappings;
            assert(ms@ =~= oms@.push(SourceMapping { rendered_index, source_index }));
            let tl = self.pending_text@.len() as int;
            assert forall|a: int, b: int| 0 <= a < b < ms.len() implies #[trigger] ms[
                b].rendered_index > #[trigger] ms[a].rendered_index by {
                if b == ms.len() - 1 && oms.len() > 0 {
                    assert(oms[oms.len() - 1].rendered_index < oldb.pending_text@.len());
                    if a < oms.len() - 1 {
                        assert(oms[oms.len() - 1].rendered_index > oms[a].rendered_index);
                    }
                }
            }
            assert forall|a: int, b: int| 0 <= a < b < ms.len() implies #[trigger] ms[
                b].source_index - #[trigger] ms[a].source_index >= ms[b].rendered_index - ms[
                a].rendered_index by {
                if b == ms.len() - 1 && oms.len() > 0 {
                    let last = oms.len() - 1;
                    assert(oms[last].source_index + oldb.pending_text@.len()
                        == oldb.current_source_index + oms[last].rendered_index);
                    if a < last {
                        assert(oms[last].source_index - oms[a].source_index >= oms[
                            last].rendered_index - oms[a].rendered_index);
                    }
                }
            }
            assert forall|i: int| 0 <= i < ms.len() implies (#[trigger] ms[i]).rendered_index <= tl
                by {
                if i < oms.len() {
                    assert(oms[i].rendered_index <= oldb.pending_text@.len());
                }
            }
        }
    }

    /// Removes the single trailing newline that parsing adds before a
    /// closing code fence, so a copy of the block excludes it.
    pub fn trim_trailing_newline(&mut self)
        requires
            old(self).wf(),
            old(self).pushable(),
        ensures
            final(self).wf(),
            final(self).floor() >= old(self).floor(),
            !Self::ends_with_newline(*old(self)) ==> *final(self) == *old(self),
            Self::ends_with_newline(*old(self)) ==> ({
                let orr = old(self).pending_runs@;
                let lr = orr[orr.len() - 1];
                &&& final(self).pending_text@ == old(self).pending_text@.drop_last()
                &&& final(self).current_source_index == old(self).current_source_index - 1
                &&& (final(self).pending_text@.len() == 0 ==> final(self).pending_mappings@.len()
                    == 0 && final(self).pending_runs@.len() == 0)
                &&& (final(self).pending_text@.len() > 0 ==> ({
                    &&& final(self).pending_mappings == old(self).pending_mappings
                    &&& final(self).pending_runs@ == if lr.len > 1 {
                        orr.drop_last().push(
                            TextRun {
                                len: (lr.len - 1) as usize,
                                style: lr.style,
                                highlight: lr.highlight,
                            },
                        )
                    } else {
                        orr.drop_last()
                    }
                }))
                &&& *final(self) == (MarkdownElementBuilder {
                    pending_text: final(self).pending_text,
                    pending_mappings: final(self).pending_mappings,
                    pending_runs: final(self).pending_runs,
                    current_source_index: final(self).current_source_index,
                    ..*old(self)
                })
            }),
    {
        let tl = self.pending_text.len();
        if tl == 0 {
            return ;
        }
        if self.pending_text[tl - 1] != crate::text::NEWLINE {
            return ;
        }
        let ghost oldb = *self;
        proof {
            let orr = oldb.pending_runs@;
            if orr.len() == 0 {
                assert(crate::style::runs_total(orr) == 0);
            }
            assert(crate::style::runs_len(orr, orr.len() as int) == crate::style::runs_len(
                orr,
                orr.len() - 1,
            ) + orr[orr.len() - 1].len);
            crate::style::lemma_runs_len_agree(orr, orr.drop_last(), orr.len() - 1);
        }
        let _ = self.pending_text.pop();
        self.current_source_index = self.current_source_index - 1;
        let last_run = self.pending_runs.pop();
        if let Some(run) = last_run {
            if run.len > 1 {
                self.pending_runs.push(
                    TextRun { len: run.len - 1, style: run.style, highlight: run.highlight },
                );
                proof {
                    let nr = self.pending_runs@;
                    assert(crate::style::runs_len(nr, nr.len() as int) == crate::style::runs_len(
                        nr,
                        nr.len() - 1,
                    ) + nr[nr.len() - 1].len);
                    crate::style::lemma_runs_len_agree(nr, nr.drop_last(), nr.len() - 1);
                    assert(nr.drop_last() =~= oldb.pending_runs@.drop_last());
                }
            }
        }
        if self.pending_text.len() == 0 {
            self.pending_mappings = Vec::new();
            self.pending_runs = Vec::new();
        }
        proof {
            assert(self.pending_text@ =~= oldb.pending_text@.drop_last());
            lemma_trim_wf(oldb, *self);
        }
    }

    /// Turns the pending line into an immutable rendered line and attaches
    /// it to the open container; an empty pending line flushes to nothing.
    pub fn flush_text(&mut self)
        requires
            old(self).wf(),
        ensures
            final(self).wf(),
            final(self).pushable(),
            final(self).pending_text@.len() == 0,
            final(self).floor() >= old(self).floor(),
            Self::flush_effect(*old(self), *final(self)),
            texts_of(final(self).rendered_lines@) == texts_of(old(self).rendered_lines@) + old(
                self,
            ).pending_text@,
            rec_kinds(*final(self)) == rec_kinds(*old(self)),
    {
        if self.pending_text.len() == 0 {
            proof {
                lemma_flush_texts(*self, *self);
            }
            return ;
        }
        let ghost oldb = *self;
        let mut text: Vec<u8> = Vec::new();
        core::mem::swap(&mut text, &mut self.pending_text);
        let mut mappings: Vec<SourceMapping> = Vec::new();
        core::mem::swap(&mut mappings, &mut self.pending_mappings);
        let mut runs: Vec<TextRun> = Vec::new();
        core::mem::swap(&mut runs, &mut self.pending_runs);
        let line = RenderedLine {
            text,
            source_mappings: mappings,
            source_end: self.current_source_index,
            layout: crate::layout::LineLayout { rows: Vec::new(), line_height: 1 },
        };
        proof {
            assert(line.wf());
            assert forall|a: int, b: int|
                0 <= a < b < line.source_mappings.len() implies #[trigger] line.source_mappings[
                b].source_index - #[trigger] line.source_mappings[a].source_index
                >= line.source_mappings[b].rendered_index - line.source_mappings[
                a].rendered_index by {
                assert(oldb.pending_mappings[b].source_index - oldb.pending_mappings[
                    a].source_index >= oldb.pending_mappings[b].rendered_index
                    - oldb.pending_mappings[a].rendered_index);
            }
        }
        let line_index = self.rendered_lines.len();
        self.rendered_lines.push(line);
        let top = self.div_stack.pop();
        if let Some(mut t) = top {
            t.children.push(MdNode::TextLine { line: line_index, runs });
            self.div_stack.push(t);
        }
        proof {
            lemma_flush_wf(oldb, *self);
            lemma_flush_texts(oldb, *self);
        }
    }
}

/// After a trim, the builder invariant still holds.
proof fn lemma_trim_wf(oldb: MarkdownElementBuilder, newb: MarkdownElementBuilder)
    requires
        oldb.wf(),
        oldb.pushable(),
        oldb.pending_text@.len() > 0,
        newb.pending_text@ == oldb.pending_text@.drop_last(),
        newb.current_source_index == oldb.current_source_index - 1,
        newb.pending_text@.len() == 0 ==> newb.pending_mappings@.len() == 0,
        newb.pending_text@.len() > 0 ==> newb.pending_mappings == oldb.pending_mappings,
        newb.div_stack == oldb.div_stack,
        newb.rendered_lines == oldb.rendered_lines,
        crate::style::runs_total(newb.pending_runs@) == crate::style::runs_total(
            oldb.pending_runs@,
        ) - 1,
        forall|i: int|
            0 <= i < newb.pending_runs.len() ==> (#[trigger] newb.pending_runs[i]).len >= 1,
        newb.floor() >= oldb.floor(),
    ensures
        newb.wf(),
{
    let oms = oldb.pending_mappings;
    let last = oms.len() - 1;
    assert(oms[last].rendered_index < oldb.pending_text@.len());
    assert forall|i: int|
        0 <= i < newb.rendered_lines.len() implies (#[trigger] newb.rendered_lines[i]).source_end
        <= newb.floor() by {
        assert(oldb.rendered_lines[i].source_end <= oldb.floor());
    }
    if newb.pending_text@.len() > 0 {
        assert forall|i: int|
            0 <= i < newb.pending_mappings.len() implies (
        #[trigger] newb.pending_mappings[i]).rendered_index <= newb.pending_text@.len() by {
            if i < last {
                assert(oms[last].rendered_index > oms[i].rendered_index);
            }
        }
    }
}

/// After a flush, the builder invariant still holds.
proof fn lemma_flush_wf(oldb: MarkdownElementBuilder, newb: MarkdownElementBuilder)
    requires
        oldb.wf(),
        oldb.pending_text@.len() > 0,
        newb.pending_text@.len() == 0,
        newb.pending_mappings@.len() == 0,
        newb.pending_runs@.len() == 0,
        newb.current_source_index == oldb.current_source_index,
        newb.div_stack@.len() >= 1,
        newb.rendered_lines@ == oldb.rendered_lines@.push(
            newb.rendered_lines@[newb.rendered_lines@.len() - 1],
        ),
        newb.rendered_lines@[newb.rendered_lines@.len() - 1].wf(),
        newb.rendered_lines@[newb.rendered_lines@.len() - 1].source_start()
            == oldb.pending_mappings[0].source_index,
        newb.rendered_lines@[newb.rendered_lines@.len() - 1].source_end
            == oldb.current_source_index,
    ensures
        newb.wf(),
{
    let lines = newb.rendered_lines;
    let n = lines.len() - 1;
    assert(crate::style::runs_total(newb.pending_runs@) == 0);
    let oms = oldb.pending_mappings;
    if oms.len() > 1 {
        assert(oms[oms.len() - 1].source_index - oms[0].source_index >= oms[oms.len()
            - 1].rendered_index - oms[0].rendered_index);
    }
    assert(oms[0].source_index <= oldb.current_source_index);
    assert forall|a: int, b: int|
        0 <= a < b < lines.len() implies #[trigger] lines[b].source_start() >= #[trigger] lines[
        a].source_end by {
        if b < n {
            assert(oldb.rendered_lines[b].source_start() >= oldb.rendered_lines[a].source_end);
        } else {
            assert(oldb.rendered_lines[a].source_end <= oldb.floor());
        }
    }
    assert forall|i: int| 0 <= i < lines.len() implies #[trigger] lines[i].wf() by {
        if i < n {
            assert(oldb.rendered_lines[i].wf());
        }
    }
    assert forall|i: int|
        0 <= i < lines.len() implies (#[trigger] lines[i]).source_end <= newb.floor() by {
        if i < n {
            assert(oldb.rendered_lines[i].source_end <= oldb.floor());
        }
    }
}


impl MarkdownElementBuilder {
    /// Finishes the build: flushes the pending line and returns the top
    /// container and the rendered lines.
    pub fn build(self) -> (r: (BlockNode, Vec<RenderedLine>))
        requires
            self.wf(),
        ensures
            forall|i: int| 0 <= i < r.1@.len() ==> #[trigger] r.1@[i].wf(),
            forall|a: int, b: int|
                0 <= a < b < r.1@.len() ==> #[trigger] r.1@[b].source_start() >= #[trigger] r.1@[
                    a].source_end,
            exists|mid: MarkdownElementBuilder|
                {
                    &&& #[trigger] Self::flush_effect(self, mid)
                    &&& r.1 == mid.rendered_lines
                    &&& r.0 == mid.div_stack@[mid.div_stack@.len() - 1]
                },
            texts_of(r.1@) == texts_of(self.rendered_lines@) + self.pending_text@,
    {
        let mut me = self;
        me.flush_text();
        let ghost mid = me;
        let top = me.div_stack.pop();
        let root = match top {
            Some(t) => t,
            None => BlockNode {
                kind: BlockKind::Root,
                suppress_top_margin: false,
                suppress_bottom_margin: false,
                copy_code: None,
                children: Vec::new(),
            },
        };
        proof {
            assert(Self::flush_effect(self, mid));
            lemma_flush_texts(self, mid);
        }
        (root, me.rendered_lines)
    }
}

/// The links of an event sequence: one per link start tag outside any code
/// block, carrying the tag's source range and destination.  `depth` counts
/// open code blocks.
pub open spec fn links_from(events: Seq<MdEventItem>, i: int, depth: int) -> Seq<RenderedLink>
    decreases events.len() - i when 0 <= i <= events.len()
{
    if i >= events.len() {
        Seq::empty()
    } else {
        match events[i].event {
            MdEvent::Start(MdTag::CodeBlock(_)) => links_from(events, i + 1, depth + 1),
            MdEvent::End(MdTagEnd::CodeBlock) => links_from(
                events,
                i + 1,
                if depth > 0 {
                    depth - 1
                } else {
                    0
                },
            ),
            MdEvent::Start(MdTag::Link(url)) => if depth == 0 {
                seq![
                    RenderedLink {
                        source_start: events[i].start,
                        source_end: events[i].end,
                        destination_url: url,
                    },
                ] + links_from(events, i + 1, depth)
            } else {
                links_from(events, i + 1, depth)
            },
            _ => links_from(events, i + 1, depth),
        }
    }
}

/// Two link tables agree field by field.
pub open spec fn links_match(a: Seq<RenderedLink>, b: Seq<RenderedLink>) -> bool {
    &&& a.len() == b.len()
    &&& forall|k: int| 0 <= k < a.len() ==> (#[trigger] a[k]).same_spec(b[k])
}

/// Builds the link table for an event sequence: every link tag region
/// outside a code block becomes one entry, in order.
pub fn collect_links(events: &Vec<MdEventItem>) -> (r: Vec<RenderedLink>)
    ensures
        links_match(r@, links_from(events@, 0, 0)),
{
    let ghost full = links_from(events@, 0, 0);
    let mut r: Vec<RenderedLink> = Vec::new();
    let mut i: usize = 0;
    let mut depth: usize = 0;
    while i < events.len()
        invariant
            0 <= i <= events@.len(),
            depth <= i,
            full =~= full.take(r@.len() as int) + links_from(events@, i as int, depth as int),
            r@.len() <= full.len(),
            forall|k: int| 0 <= k < r@.len() ==> (#[trigger] r@[k]).same_spec(full[k]),
        decreases events@.len() - i,
    {
        let ev = &events[i];
        match &ev.event {
            MdEvent::Start(MdTag::CodeBlock(_)) => {
                depth = depth + 1;
            },
            MdEvent::End(MdTagEnd::CodeBlock) => {
                if depth > 0 {
                    depth = depth - 1;
                }
            },
            MdEvent::Start(MdTag::Link(url)) => {
                if depth == 0 {
                    let ghost rest = links_from(events@, i + 1, depth as int);
                    proof {
                        assert(links_from(events@, i as int, depth as int) =~= seq![
                            RenderedLink {
                                source_start: events@[i as int].start,
                                source_end: events@[i as int].end,
                                destination_url: events@[i as int].event->Start_0->Link_0,
                            },
                        ] + rest);
                        assert(full[r@.len() as int].source_start == events@[i as int].start);
                        assert(full[r@.len() as int].source_end == events@[i as int].end);
                        assert(full[r@.len() as int].destination_url == events@[i as int].event->Start_0->Link_0);
                    }
                    let url_copy = crate::text::subvec(url, 0, url.len());
                    proof {
                        assert(url_copy@ =~= url@);
                    }
                    r.push(
                        RenderedLink {
                            source_start: ev.start,
                            source_end: ev.end,
                            destination_url: url_copy,
                        },
                    );
                    proof {
                        assert(full.take(r@.len() as int) =~= full.take(r@.len() - 1).push(
                            full[r@.len() - 1],
                        ));
                        assert(full =~= full.take(r@.len() as int) + rest);
                    }
                }
            },
            _ => {},
        }
        i = i + 1;
    }
    proof {
        assert(full.take(r@.len() as int) =~= full);
    }
    r
}

/// Whether an event contributes rendered text.
pub open spec fn text_bearing(e: MdEventItem) -> bool {
    match e.event {
        MdEvent::Text(_) => true,
        MdEvent::Code => true,
        MdEvent::Html => true,
        MdEvent::InlineHtml => true,
        MdEvent::SoftBreak => true,
        MdEvent::HardBreak => true,
        _ => false,
    }
}

/// How many rendered bytes an event contributes.
pub open spec fn frag_len(e: MdEventItem) -> int {
    match e.event {
        MdEvent::Text(t) => t@.len() as int,
        MdEvent::Code => e.end - e.start,
        MdEvent::Html => e.end - e.start,
        MdEvent::InlineHtml => e.end - e.start,
        MdEvent::SoftBreak => 1,
        MdEvent::HardBreak => 1,
        _ => 0,
    }
}

/// A well-behaved parse: every range lies within the source, no text run
/// outgrows its range, and text-bearing ranges do not overlap and come in
/// source order.
pub open spec fn events_ok(events: Seq<MdEventItem>, source_len: int) -> bool {
    &&& forall|i: int|
        0 <= i < events.len() ==> (#[trigger] events[i]).start <= events[i].end <= source_len
    &&& forall|i: int|
        0 <= i < events.len() && text_bearing(#[trigger] events[i]) ==> frag_len(events[i])
            <= events[i].end - events[i].start
    &&& forall|a: int, b: int|
        0 <= a < b < events.len() && text_bearing(#[trigger] events[a]) && text_bearing(
            #[trigger] events[b],
        ) ==> events[a].start + frag_len(events[a]) <= events[b].start
}

/// The record kind a start tag opens: the end tag that will close it.
pub open spec fn start_rec_kind(t: MdTag) -> MdTagEnd {
    match t {
        MdTag::Paragraph => MdTagEnd::Paragraph,
        MdTag::Heading(_) => MdTagEnd::Heading,
        MdTag::BlockQuote => MdTagEnd::BlockQuote,
        MdTag::CodeBlock(_) => MdTagEnd::CodeBlock,
        MdTag::HtmlBlock => MdTagEnd::HtmlBlock,
        MdTag::List(_) => MdTagEnd::List,
        MdTag::Item => MdTagEnd::Item,
        MdTag::Emphasis => MdTagEnd::Emphasis,
        MdTag::Strong => MdTagEnd::Strong,
        MdTag::Strikethrough => MdTagEnd::Strikethrough,
        MdTag::Link(_) => MdTagEnd::Link,
        MdTag::MetadataBlock => MdTagEnd::Other,
        MdTag::Table(_) => MdTagEnd::Table,
        MdTag::TableHead => MdTagEnd::TableHead,
        MdTag::TableRow => MdTagEnd::TableRow,
        MdTag::TableCell => MdTagEnd::TableCell,
        MdTag::Other => MdTagEnd::Other,
    }
}

/// Whether a construct is a container: opening or closing it flushes the
/// pending line.
pub open spec fn kind_has_div(k: MdTagEnd) -> bool {
    match k {
        MdTagEnd::Emphasis => false,
        MdTagEnd::Strong => false,
        MdTagEnd::Strikethrough => false,
        MdTagEnd::Link => false,
        MdTagEnd::Other => false,
        _ => true,
    }
}

/// The content trace: what one event does to the flushed text, the pending
/// line and the open-record kinds.  A soft break renders as a space, a hard
/// break as a newline, text and raw spans as their bytes; containers flush;
/// closing a code block first trims its artificial trailing newline;
/// unsupported constructs and mismatched end tags contribute nothing.
pub open spec fn trace_step(
    done: Seq<u8>,
    pending: Seq<u8>,
    recs: Seq<MdTagEnd>,
    e: MdEventItem,
    source: Seq<u8>,
) -> (Seq<u8>, Seq<u8>, Seq<MdTagEnd>) {
    match e.event {
        MdEvent::Start(t) => if kind_has_div(start_rec_kind(t)) {
            (done + pending, Seq::empty(), recs.push(start_rec_kind(t)))
        } else {
            (done, pending, recs.push(start_rec_kind(t)))
        },
        MdEvent::End(k) => if recs.len() > 0 && recs[recs.len() - 1] == k {
            if k == MdTagEnd::CodeBlock {
                let trimmed = if pending.len() > 0 && pending[pending.len() - 1]
                    == crate::text::NEWLINE {
                    pending.drop_last()
                } else {
                    pending
                };
                (done + trimmed, Seq::empty(), recs.drop_last())
            } else if kind_has_div(k) {
                (done + pending, Seq::empty(), recs.drop_last())
            } else {
                (done, pending, recs.drop_last())
            }
        } else {
            (done, pending, recs)
        },
        MdEvent::Text(t) => (done, pending + t@, recs),
        MdEvent::Code => (done, pending + source.subrange(e.start as int, e.end as int), recs),
        MdEvent::Html => (done, pending + source.subrange(e.start as int, e.end as int), recs),
        MdEvent::InlineHtml => (
            done,
            pending + source.subrange(e.start as int, e.end as int),
            recs,
        ),
        MdEvent::Rule => (done + pending, Seq::empty(), recs),
        MdEvent::SoftBreak => (done, pending + seq![crate::text::SPACE], recs),
        MdEvent::HardBreak => (done, pending + seq![crate::text::NEWLINE], recs),
    }
}

/// The content trace of an event prefix, from the empty document.
pub open spec fn trace(events: Seq<MdEventItem>, source: Seq<u8>, i: int) -> (
    Seq<u8>,
    Seq<u8>,
    Seq<MdTagEnd>,
)
    decreases i when 0 <= i <= events.len()
{
    if i <= 0 {
        (Seq::empty(), Seq::empty(), Seq::empty())
    } else {
        let st = trace(events, source, i - 1);
        trace_step(st.0, st.1, st.2, events[i - 1], source)
    }
}

/// All rendered bytes an event sequence produces, flushed lines first, the
/// still-pending tail last.
pub open spec fn rendered_content(events: Seq<MdEventItem>, source: Seq<u8>) -> Seq<u8> {
    let st = trace(events, source, events.len() as int);
    st.0 + st.1
}

/// The concatenated text of a line list.
pub open spec fn texts_of(lines: Seq<RenderedLine>) -> Seq<u8>
    decreases lines.len(),
{
    if lines.len() == 0 {
        Seq::empty()
    } else {
        texts_of(lines.drop_last()) + lines[lines.len() - 1].text@
    }
}

/// The open-record kinds of a builder.
pub open spec fn rec_kinds(b: MarkdownElementBuilder) -> Seq<MdTagEnd> {
    b.open_records@.map_values(|rec: OpenRec| rec.end_kind)
}

/// `texts_of` reads only the lines' texts.
proof fn lemma_texts_of_agree(a: Seq<RenderedLine>, b: Seq<RenderedLine>)
    requires
        a.len() == b.len(),
        forall|i: int| 0 <= i < a.len() ==> (#[trigger] a[i]).text == b[i].text,
    ensures
        texts_of(a) == texts_of(b),
    decreases a.len(),
{
    if a.len() > 0 {
        lemma_texts_of_agree(a.drop_last(), b.drop_last());
        assert(a[a.len() - 1].text == b[b.len() - 1].text);
    }
}

/// A flush moves the pending bytes to the end of the flushed text.
proof fn lemma_flush_texts(pre: MarkdownElementBuilder, post: MarkdownElementBuilder)
    requires
        MarkdownElementBuilder::flush_effect(pre, post),
    ensures
        texts_of(post.rendered_lines@) == texts_of(pre.rendered_lines@) + pre.pending_text@,
        post.pending_text@.len() == 0 || post == pre,
        rec_kinds(post) == rec_kinds(pre),
    decreases 0int,
{
    if pre.pending_text@.len() == 0 {
        assert(texts_of(pre.rendered_lines@) + pre.pending_text@ =~= texts_of(
            pre.rendered_lines@,
        ));
    } else {
        let lines = post.rendered_lines@;
        assert(texts_of(lines) == texts_of(lines.drop_last()) + lines[lines.len() - 1].text@);
        lemma_texts_of_agree(lines.drop_last(), pre.rendered_lines@);
        assert(lines[lines.len() - 1].text@ == pre.pending_text@);
    }
}

/// Decides `events_ok` in one pass, so a host can test the builder's
/// assumption on a parse before handing it over, and drop a malformed one.
pub fn events_well_formed(events: &Vec<MdEventItem>, source_len: usize) -> (r: bool)
    ensures
        r == events_ok(events@, source_len as int),
{
    let ghost evs = events@;
    let mut last_text_end: usize = 0;
    let ghost mut last_tb: Option<int> = None;
    let mut i: usize = 0;
    while i < events.len()
        invariant
            0 <= i <= evs.len(),
            evs == events@,
            last_text_end <= source_len || last_text_end == 0,
            match last_tb {
                Some(a) => 0 <= a < i && text_bearing(evs[a]) && evs[a].start + frag_len(evs[a])
                    == last_text_end,
                None => last_text_end == 0,
            },
            forall|j: int| 0 <= j < i ==> (#[trigger] evs[j]).start <= evs[j].end <= source_len,
            forall|j: int|
                0 <= j < i && text_bearing(#[trigger] evs[j]) ==> frag_len(evs[j]) <= evs[j].end
                    - evs[j].start,
            forall|j: int|
                0 <= j < i && text_bearing(#[trigger] evs[j]) ==> evs[j].start + frag_len(evs[j])
                    <= last_text_end,
            forall|a: int, b: int|
                0 <= a < b < i && text_bearing(#[trigger] evs[a]) && text_bearing(
                    #[trigger] evs[b],
                ) ==> evs[a].start + frag_len(evs[a]) <= evs[b].start,
        decreases evs.len() - i,
    {
        let ev = &events[i];
        if ev.start > ev.end || ev.end > source_len {
            proof {
                assert(!(evs[i as int].start <= evs[i as int].end <= source_len));
            }
            return false;
        }
        let frag: Option<usize> = match &ev.event {
            MdEvent::Text(t) => Some(t.len()),
            MdEvent::Code => Some(ev.end - ev.start),
            MdEvent::Html => Some(ev.end - ev.start),
            MdEvent::InlineHtml => Some(ev.end - ev.start),
            MdEvent::SoftBreak => Some(1),
            MdEvent::HardBreak => Some(1),
            _ => None,
        };
        if let Some(fl) = frag {
            proof {
                assert(text_bearing(evs[i as int]));
                assert(frag_len(evs[i as int]) == fl as int);
            }
            if fl > ev.end - ev.start {
                return false;
            }
            if ev.start < last_text_end {
                proof {
                    let a = last_tb.unwrap();
                    assert(text_bearing(evs[a]) && evs[a].start + frag_len(evs[a]) > evs[
                        i as int].start);
                }
                return false;
            }
            last_text_end = ev.start + fl;
            proof {
                last_tb = Some(i as int);
            }
        }
        i = i + 1;
    }
    true
}
/// Whether a builder's open records are consistent: a record needs a
/// container pop exactly when its end kind is a container's.
pub open spec fn recs_wf(b: MarkdownElementBuilder) -> bool {
    forall|j: int|
        0 <= j < b.open_records@.len() ==> ((#[trigger] b.open_records@[j]).divs >= 1)
            == kind_has_div(b.open_records@[j].end_kind)
}

/// Applies one parsed event to the builder: the single step of the walk.
/// Its effect on the rendered content is exactly one `trace_step`.
#[verifier::rlimit(100)]
#[verifier::spinoff_prover]
fn apply_event(
    b: &mut MarkdownElementBuilder,
    ev: &MdEventItem,
    source: &Vec<u8>,
    languages: &Vec<LanguageBinding>,
    spans: &Vec<HighlightSpan>,
    empty_spans: &Vec<HighlightSpan>,
    style: &crate::style::MarkdownStyle,
    copy_code_block_buttons: bool,
    markdown_end: usize,
)
    requires
        old(b).wf(),
        old(b).pushable(),
        recs_wf(*old(b)),
        source@.len() <= usize::MAX / 2,
        ev.start <= ev.end <= source@.len(),
        text_bearing(*ev) ==> frag_len(*ev) <= ev.end - ev.start && old(b).current_source_index
            <= ev.start,
        crate::style::spans_wf(spans@, frag_len(*ev)),
        empty_spans@.len() == 0,
    ensures
        final(b).wf(),
        final(b).pushable(),
        recs_wf(*final(b)),
        text_bearing(*ev) ==> final(b).current_source_index <= ev.start + frag_len(*ev),
        !text_bearing(*ev) ==> final(b).current_source_index <= old(b).current_source_index,
        ({
            let st = trace_step(
                texts_of(old(b).rendered_lines@),
                old(b).pending_text@,
                rec_kinds(*old(b)),
                *ev,
                source@,
            );
            &&& texts_of(final(b).rendered_lines@) == st.0
            &&& final(b).pending_text@ == st.1
            &&& rec_kinds(*final(b)) == st.2
        }),
{
    match &ev.event {
        MdEvent::Start(tag) => {
            match tag {
                MdTag::Paragraph => {
                    b.push_div(BlockKind::Paragraph, ev.start, ev.end, markdown_end);
                    b.open_records.push(
                        OpenRec {
                            end_kind: MdTagEnd::Paragraph,
                            divs: 1,
                            styles: 0,
                            code: false,
                            list: false,
                            table: false,
                        },
                    );
                },
                MdTag::Heading(level) => {
                    b.push_text_style(style.heading);
                    b.push_div(BlockKind::Heading(*level), ev.start, ev.end, markdown_end);
                    b.open_records.push(
                        OpenRec {
                            end_kind: MdTagEnd::Heading,
                            divs: 1,
                            styles: 1,
                            code: false,
                            list: false,
                            table: false,
                        },
                    );
                },
                MdTag::BlockQuote => {
                    b.push_text_style(style.block_quote);
                    b.push_div(BlockKind::BlockQuote, ev.start, ev.end, markdown_end);
                    b.open_records.push(
                        OpenRec {
                            end_kind: MdTagEnd::BlockQuote,
                            divs: 1,
                            styles: 1,
                            code: false,
                            list: false,
                            table: false,
                        },
                    );
                },
                MdTag::CodeBlock(fence) => {
                    let language: Option<u64> = match fence {
                        CodeFence::Fenced(name) => crate::events::language_for(languages, name),
                        CodeFence::Indented => None,
                    };
                    b.push_div(BlockKind::CodeBlockWrapper, ev.start, ev.end, markdown_end);
                    let styles: u8 = match style.code_block_text {
                        Some(p) => {
                            b.push_text_style(p);
                            1
                        },
                        None => 0,
                    };
                    b.push_code_block(language);
                    b.push_div(BlockKind::CodeBlock(language), ev.start, ev.end, markdown_end);
                    proof {
                        assert(texts_of(b.rendered_lines@) =~= texts_of(old(b).rendered_lines@)
                            + old(b).pending_text@);
                    }
                    b.open_records.push(
                        OpenRec {
                            end_kind: MdTagEnd::CodeBlock,
                            divs: 2,
                            styles,
                            code: true,
                            list: false,
                            table: false,
                        },
                    );
                },
                MdTag::HtmlBlock => {
                    b.push_div(BlockKind::HtmlBlock, ev.start, ev.end, markdown_end);
                    b.open_records.push(
                        OpenRec {
                            end_kind: MdTagEnd::HtmlBlock,
                            divs: 1,
                            styles: 0,
                            code: false,
                            list: false,
                            table: false,
                        },
                    );
                },
                MdTag::List(bullet_index) => {
                    b.push_list(*bullet_index);
                    b.push_div(BlockKind::List, ev.start, ev.end, markdown_end);
                    b.open_records.push(
                        OpenRec {
                            end_kind: MdTagEnd::List,
                            divs: 1,
                            styles: 0,
                            code: false,
                            list: true,
                            table: false,
                        },
                    );
                },
                MdTag::Item => {
                    let bullet = b.next_bullet_index();
                    b.push_div(BlockKind::Item(bullet), ev.start, ev.end, markdown_end);
                    b.push_div(BlockKind::ItemBody, ev.start, ev.end, markdown_end);
                    proof {
                        assert(texts_of(b.rendered_lines@) =~= texts_of(old(b).rendered_lines@)
                            + old(b).pending_text@);
                    }
                    b.open_records.push(
                        OpenRec {
                            end_kind: MdTagEnd::Item,
                            divs: 2,
                            styles: 0,
                            code: false,
                            list: false,
                            table: false,
                        },
                    );
                },
                MdTag::Emphasis => {
                    b.push_text_style(
                        StylePatch {
                            italic: Some(true),
                            bold: None,
                            strikethrough: None,
                            underline: None,
                            color: None,
                        },
                    );
                    b.open_records.push(
                        OpenRec {
                            end_kind: MdTagEnd::Emphasis,
                            divs: 0,
                            styles: 1,
                            code: false,
                            list: false,
                            table: false,
                        },
                    );
                },
                MdTag::Strong => {
                    b.push_text_style(
                        StylePatch {
                            italic: None,
                            bold: Some(true),
                            strikethrough: None,
                            underline: None,
                            color: None,
                        },
                    );
                    b.open_records.push(
                        OpenRec {
                            end_kind: MdTagEnd::Strong,
                            divs: 0,
                            styles: 1,
                            code: false,
                            list: false,
                            table: false,
                        },
                    );
                },
                MdTag::Strikethrough => {
                    b.push_text_style(
                        StylePatch {
                            italic: None,
                            bold: None,
                            strikethrough: Some(true),
                            underline: None,
                            color: None,
                        },
                    );
                    b.open_records.push(
                        OpenRec {
                            end_kind: MdTagEnd::Strikethrough,
                            divs: 0,
                            styles: 1,
                            code: false,
                            list: false,
                            table: false,
                        },
                    );
                },
                MdTag::Link(_) => {
                    let styles: u8 = if b.code_block_stack.len() == 0 {
                        b.push_text_style(style.link);
                        1
                    } else {
                        0
                    };
                    b.open_records.push(
                        OpenRec {
                            end_kind: MdTagEnd::Link,
                            divs: 0,
                            styles,
                            code: false,
                            list: false,
                            table: false,
                        },
                    );
                },
                MdTag::MetadataBlock => {
                    b.open_records.push(
                        OpenRec {
                            end_kind: MdTagEnd::Other,
                            divs: 0,
                            styles: 0,
                            code: false,
                            list: false,
                            table: false,
                        },
                    );
                },
                MdTag::Table(alignments) => {
                    b.table_alignments = copy_aligns(alignments);
                    b.push_div(BlockKind::Table, ev.start, ev.end, markdown_end);
                    b.push_div(BlockKind::TableInner, ev.start, ev.end, markdown_end);
                    proof {
                        assert(texts_of(b.rendered_lines@) =~= texts_of(old(b).rendered_lines@)
                            + old(b).pending_text@);
                    }
                    b.open_records.push(
                        OpenRec {
                            end_kind: MdTagEnd::Table,
                            divs: 2,
                            styles: 0,
                            code: false,
                            list: false,
                            table: true,
                        },
                    );
                },
                MdTag::TableHead => {
                    b.push_div(BlockKind::TableHead, ev.start, ev.end, markdown_end);
                    b.push_text_style(
                        StylePatch {
                            italic: None,
                            bold: Some(true),
                            strikethrough: None,
                            underline: None,
                            color: None,
                        },
                    );
                    b.open_records.push(
                        OpenRec {
                            end_kind: MdTagEnd::TableHead,
                            divs: 1,
                            styles: 1,
                            code: false,
                            list: false,
                            table: false,
                        },
                    );
                },
                MdTag::TableRow => {
                    b.push_div(BlockKind::TableRow, ev.start, ev.end, markdown_end);
                    b.open_records.push(
                        OpenRec {
                            end_kind: MdTagEnd::TableRow,
                            divs: 1,
                            styles: 0,
                            code: false,
                            list: false,
                            table: false,
                        },
                    );
                },
                MdTag::TableCell => {
                    b.push_div(
                        BlockKind::TableCell(b.table_alignments.len()),
                        ev.start,
                        ev.end,
                        markdown_end,
                    );
                    b.open_records.push(
                        OpenRec {
                            end_kind: MdTagEnd::TableCell,
                            divs: 1,
                            styles: 0,
                            code: false,
                            list: false,
                            table: false,
                        },
                    );
                },
                MdTag::Other => {
                    b.open_records.push(
                        OpenRec {
                            end_kind: MdTagEnd::Other,
                            divs: 0,
                            styles: 0,
                            code: false,
                            list: false,
                            table: false,
                        },
                    );
                },
            }
            proof {
                let kind = start_rec_kind(ev.event->Start_0);
                assert(rec_kinds(*b) =~= rec_kinds(*old(b)).push(kind));
                if !kind_has_div(kind) {
                    assert(b.pending_text@ == old(b).pending_text@);
                }
            }
        },
        MdEvent::End(k) => {
            let n = b.open_records.len();
            if n > 0 {
                let rec = b.open_records[n - 1];
                proof {
                    assert(rec_kinds(*old(b))[n - 1] == rec.end_kind);
                    assert(rec_kinds(*old(b)).len() == n as int);
                }
                if rec.end_kind == *k {
                    let _ = b.open_records.pop();
                    proof {
                        assert(rec_kinds(*b) =~= rec_kinds(*old(b)).drop_last());
                    }
                    if rec.end_kind == MdTagEnd::CodeBlock {
                        b.trim_trailing_newline();
                        b.pop_div();
                        b.pop_code_block();
                        if rec.styles >= 1 {
                            b.pop_text_style();
                        }
                        if copy_code_block_buttons {
                            let snippet = crate::text::subvec(source, ev.start, ev.end);
                            let trimmed = crate::text::trim_ascii(&snippet);
                            let code = crate::text::without_fences(&trimmed);
                            b.set_copy_code(code);
                        }
                        b.pop_div();
                        proof {
                            let spec_trim = if old(b).pending_text@.len() > 0 && old(
                                b,
                            ).pending_text@[old(b).pending_text@.len() - 1]
                                == crate::text::NEWLINE {
                                old(b).pending_text@.drop_last()
                            } else {
                                old(b).pending_text@
                            };
                            assert(texts_of(b.rendered_lines@) =~= texts_of(
                                old(b).rendered_lines@,
                            ) + spec_trim);
                        }
                    } else {
                        if rec.code {
                            b.pop_code_block();
                        }
                        if rec.divs >= 1 {
                            b.pop_div();
                        }
                        if rec.divs >= 2 {
                            b.pop_div();
                        }
                        if rec.styles >= 1 {
                            b.pop_text_style();
                        }
                        if rec.list {
                            b.pop_list();
                        }
                        if rec.table {
                            b.table_alignments = Vec::new();
                        }
                        proof {
                            assert((rec.divs >= 1) == kind_has_div(rec.end_kind));
                            if rec.divs >= 1 {
                                assert(texts_of(b.rendered_lines@) =~= texts_of(
                                    old(b).rendered_lines@,
                                ) + old(b).pending_text@);
                            }
                        }
                    }
                }
            }
        },
        MdEvent::Text(t) => {
            proof {
                assert(frag_len(*ev) == t@.len() as int);
                assert(ev.start + t@.len() <= ev.end <= source@.len());
            }
            b.push_text(t, ev.start, spans);
        },
        MdEvent::Code => {
            let fragment = crate::text::subvec(source, ev.start, ev.end);
            b.push_text_style(style.inline_code);
            b.push_text(&fragment, ev.start, empty_spans);
            b.pop_text_style();
        },
        MdEvent::Html => {
            let fragment = crate::text::subvec(source, ev.start, ev.end);
            b.push_text(&fragment, ev.start, empty_spans);
        },
        MdEvent::InlineHtml => {
            let fragment = crate::text::subvec(source, ev.start, ev.end);
            b.push_text(&fragment, ev.start, empty_spans);
        },
        MdEvent::Rule => {
            b.push_div(BlockKind::Rule, ev.start, ev.end, markdown_end);
            b.pop_div();
            proof {
                assert(texts_of(b.rendered_lines@) =~= texts_of(old(b).rendered_lines@)
                    + old(b).pending_text@);
            }
        },
        MdEvent::SoftBreak => {
            let mut sp_frag: Vec<u8> = Vec::new();
            sp_frag.push(crate::text::SPACE);
            proof {
                assert(sp_frag@ =~= seq![crate::text::SPACE]);
            }
            b.push_text(&sp_frag, ev.start, empty_spans);
        },
        MdEvent::HardBreak => {
            let mut nl_frag: Vec<u8> = Vec::new();
            nl_frag.push(crate::text::NEWLINE);
            proof {
                assert(nl_frag@ =~= seq![crate::text::NEWLINE]);
            }
            b.push_text(&nl_frag, ev.start, empty_spans);
        },
    }
}

/// Walks the parsed event sequence once, building the render tree and the
/// rendered-text index: one container per block construct, one style
/// overlay per inline construct, lines flushed at block boundaries, code
/// blocks split into highlighted runs, and the link table collected from
/// the link tags.  The lines' texts concatenate to exactly the content
/// trace of the events: text and raw spans as their bytes, a soft break as
/// a space, a hard break as a newline, code blocks with their artificial
/// trailing newline trimmed, and nothing at all from unsupported or
/// mismatched constructs.
#[verifier::rlimit(100)]
#[verifier::spinoff_prover]
pub fn build_render_tree(
    events: &Vec<MdEventItem>,
    source: &Vec<u8>,
    languages: &Vec<LanguageBinding>,
    highlights: &Vec<Vec<HighlightSpan>>,
    style: &crate::style::MarkdownStyle,
    copy_code_block_buttons: bool,
) -> (r: RenderedMarkdown)
    requires
        source@.len() <= usize::MAX / 2,
        events_ok(events@, source@.len() as int),
        highlights@.len() == events@.len(),
        forall|i: int|
            0 <= i < events@.len() ==> crate::style::spans_wf(
                (#[trigger] highlights@[i])@,
                frag_len(events@[i]),
            ),
    ensures
        r.text.wf(),
        links_match(r.text.links@, links_from(events@, 0, 0)),
        texts_of(r.text.lines@) == rendered_content(events@, source@),
{
    let markdown_end: usize = if events.len() > 0 {
        events[events.len() - 1].end
    } else {
        0
    };
    let empty_spans: Vec<HighlightSpan> = Vec::new();
    let mut b = MarkdownElementBuilder::new(style.base_text_style);
    proof {
        assert(texts_of(b.rendered_lines@) =~= Seq::<u8>::empty());
        assert(rec_kinds(b) =~= Seq::<MdTagEnd>::empty());
    }
    let mut i: usize = 0;
    while i < events.len()
        invariant
            b.wf(),
            b.pushable(),
            recs_wf(b),
            source@.len() <= usize::MAX / 2,
            events_ok(events@, source@.len() as int),
            highlights@.len() == events@.len(),
            forall|j: int|
                0 <= j < events@.len() ==> crate::style::spans_wf(
                    (#[trigger] highlights@[j])@,
                    frag_len(events@[j]),
                ),
            empty_spans@.len() == 0,
            0 <= i <= events@.len(),
            forall|j: int|
                i <= j < events@.len() && text_bearing(#[trigger] events@[j])
                    ==> b.current_source_index <= events@[j].start,
            texts_of(b.rendered_lines@) == trace(events@, source@, i as int).0,
            b.pending_text@ == trace(events@, source@, i as int).1,
            rec_kinds(b) == trace(events@, source@, i as int).2,
        decreases events@.len() - i,
    {
        let ev = &events[i];
        proof {
            assert(events@[i as int].start <= events@[i as int].end <= source@.len());
            if text_bearing(events@[i as int]) {
                assert(frag_len(events@[i as int]) <= events@[i as int].end - events@[
                    i as int].start);
            }
        }
        apply_event(
            &mut b,
            ev,
            source,
            languages,
            &highlights[i],
            &empty_spans,
            style,
            copy_code_block_buttons,
            markdown_end,
        );
        proof {
            let st = trace(events@, source@, i as int);
            assert(trace(events@, source@, i + 1) == trace_step(
                st.0,
                st.1,
                st.2,
                events@[i as int],
                source@,
            ));
            assert forall|j: int|
                i + 1 <= j < events@.len() && text_bearing(#[trigger] events@[j])
                implies b.current_source_index <= events@[j].start by {
                if text_bearing(events@[i as int]) {
                    assert(events@[i as int].start + frag_len(events@[i as int]) <= events@[
                        j].start);
                }
            }
        }
        i = i + 1;
    }
    let ghost final_trace = trace(events@, source@, events@.len() as int);
    let ghost built = b;
    let (root, lines) = b.build();
    proof {
        assert(texts_of(lines@) == texts_of(built.rendered_lines@) + built.pending_text@);
        assert(texts_of(lines@) == rendered_content(events@, source@));
    }
    let links = collect_links(events);
    let text = RenderedText { lines, links };
    proof {
        assert forall|kk: int| 0 <= kk < text.lines.len() implies #[trigger] text.lines[kk].wf()
            by {}
    }
    RenderedMarkdown { root, text }
}

} // verus!
