//! The markdown document: the source text, the parse scheduler, and the
//! interactive text layer's selection and link state machine.
//!
//! Parsing runs off the interactive path: the document only decides.  Each
//! mutation returns a command — spawn a parse of this snapshot, or nothing —
//! and the host performs it, handing the finished parse back.  At most one
//! parse is ever in flight: a request that arrives mid-parse only marks the
//! document dirty, and completion re-requests with the then-current source.

use vstd::prelude::*;

use crate::events::ParsedMarkdown;
use crate::layout::PixelPoint;
use crate::layout::PixelRect;
use crate::rendered::RenderedLink;
use crate::rendered::RenderedText;
use crate::selection::Selection;
use crate::style::MarkdownStyle;

verus! {

/// What the host must do after a document mutation.
pub enum ParseCommand {
    /// Nothing to do.
    NoParse,
    /// Run the parser on this source snapshot and hand the result back.
    Spawn(Vec<u8>),
}

/// A markdown document and its interactive state.
pub struct Markdown {
    /// The current source text.
    pub source: Vec<u8>,
    /// The current selection, in source offsets.
    pub selection: Selection,
    /// The link under a pressed pointer, if any.
    pub pressed_link: Option<RenderedLink>,
    /// A pending request to scroll the head of the selection into view.
    pub autoscroll_request: Option<usize>,
    /// The style sheet used by the render-tree builder.
    pub style: MarkdownStyle,
    /// The latest committed parse.
    pub parsed_markdown: ParsedMarkdown,
    /// Set when a request arrived while a parse was in flight.
    pub should_reparse: bool,
    /// Whether a parse is in flight.
    pub parse_in_flight: bool,
    /// The language to highlight bare fenced blocks with, if any.
    pub fallback_code_block_language: Option<Vec<u8>>,
    /// Parse only links, skipping full markdown structure.
    pub parse_links_only: bool,
    /// Whether code blocks get a copy button.
    pub copy_code_block_buttons: bool,
}

impl Markdown {
    /// The document's invariant: the selection is never inverted.
    pub open spec fn wf(self) -> bool {
        self.selection.wf()
    }

    /// A new document; parsing of the initial source starts at once.
    pub fn new(
        source: Vec<u8>,
        style: MarkdownStyle,
        fallback_code_block_language: Option<Vec<u8>>,
    ) -> (r: (Markdown, ParseCommand))
        ensures
            r.0.wf(),
            r.0.source == source,
            r.0.selection == (Selection { start: 0usize, end: 0usize, reversed: false, pending: false }),
            r.0.pressed_link is None,
            r.0.autoscroll_request is None,
            r.0.style == style,
            r.0.fallback_code_block_language == fallback_code_block_language,
            !r.0.should_reparse,
            r.0.parsed_markdown.source@.len() == 0,
            r.0.parsed_markdown.events@.len() == 0,
            r.0.parsed_markdown.languages@.len() == 0,
            !r.0.parse_links_only,
            r.0.copy_code_block_buttons,
            source@.len() == 0 ==> !r.0.parse_in_flight && (r.1 is NoParse),
            source@.len() > 0 ==> r.0.parse_in_flight && (r.1 matches ParseCommand::Spawn(s)
                && s@ == source@),
    {
        let mut this = Markdown {
            source,
            selection: Selection::default(),
            pressed_link: None,
            autoscroll_request: None,
            style,
            parsed_markdown: ParsedMarkdown::default(),
            should_reparse: false,
            parse_in_flight: false,
            fallback_code_block_language,
            parse_links_only: false,
            copy_code_block_buttons: true,
        };
        let cmd = this.parse();
        (this, cmd)
    }

    /// A new text-only document: only links are parsed.
    pub fn new_text(source: Vec<u8>, style: MarkdownStyle) -> (r: (Markdown, ParseCommand))
        ensures
            r.0.wf(),
            r.0.source == source,
            r.0.selection == (Selection { start: 0usize, end: 0usize, reversed: false, pending: false }),
            r.0.pressed_link is None,
            r.0.autoscroll_request is None,
            r.0.style == style,
            r.0.fallback_code_block_language is None,
            !r.0.should_reparse,
            r.0.parsed_markdown.source@.len() == 0,
            r.0.parsed_markdown.events@.len() == 0,
            r.0.parsed_markdown.languages@.len() == 0,
            r.0.parse_links_only,
            r.0.copy_code_block_buttons,
            source@.len() == 0 ==> !r.0.parse_in_flight && (r.1 is NoParse),
            source@.len() > 0 ==> r.0.parse_in_flight && (r.1 matches ParseCommand::Spawn(s)
                && s@ == source@),
    {
        let mut this = Markdown {
            source,
            selection: Selection::default(),
            pressed_link: None,
            autoscroll_request: None,
            style,
            parsed_markdown: ParsedMarkdown::default(),
            should_reparse: false,
            parse_in_flight: false,
            fallback_code_block_language: None,
            parse_links_only: true,
            copy_code_block_buttons: true,
        };
        let cmd = this.parse();
        (this, cmd)
    }

    /// Read access to the source text.
    pub fn source(&self) -> (r: &Vec<u8>)
        ensures
            r == self.source,
    {
        &self.source
    }

    /// Read access to the latest committed parse.
    pub fn parsed_markdown(&self) -> (r: &ParsedMarkdown)
        ensures
            r == self.parsed_markdown,
    {
        &self.parsed_markdown
    }

    /// Disables or enables the copy buttons on code blocks.
    pub fn copy_code_block_buttons(self, should_copy: bool) -> (r: Markdown)
        ensures
            r == (Markdown { copy_code_block_buttons: should_copy, ..self }),
    {
        Markdown { copy_code_block_buttons: should_copy, ..self }
    }

    /// Appends text to the source and requests a re-parse.
    pub fn append(&mut self, text: &Vec<u8>) -> (cmd: ParseCommand)
        requires
            old(self).wf(),
            old(self).source@.len() + text@.len() <= usize::MAX,
        ensures
            final(self).wf(),
            final(self).source@ == old(self).source@ + text@,
            final(self).selection == old(self).selection,
            parse_transition(
                Markdown { source: final(self).source, ..*old(self) },
                *final(self),
                cmd,
            ),
    {
        crate::builder::extend_bytes(&mut self.source, text);
        self.parse()
    }

    /// Replaces the source, resetting all interactive state and requesting
    /// a re-parse; a reset to the identical source is a no-op.
    pub fn reset(&mut self, source: Vec<u8>) -> (cmd: ParseCommand)
        requires
            old(self).wf(),
        ensures
            final(self).wf(),
            source@ == old(self).source@ ==> *final(self) == *old(self) && (cmd is NoParse),
            source@ != old(self).source@ ==> {
                let mid = Markdown {
                    source: source,
                    selection: Selection { start: 0, end: 0, reversed: false, pending: false },
                    pressed_link: None::<RenderedLink>,
                    autoscroll_request: None::<usize>,
                    should_reparse: false,
                    parse_in_flight: false,
                    parsed_markdown: final(self).parsed_markdown,
                    ..*old(self)
                };
                &&& final(self).source == source
                &&& final(self).selection == (Selection {
                    start: 0usize,
                    end: 0usize,
                    reversed: false,
                    pending: false,
                })
                &&& final(self).pressed_link is None
                &&& final(self).autoscroll_request is None
                &&& final(self).parsed_markdown.source@.len() == 0
                &&& final(self).parsed_markdown.events@.len() == 0
                &&& final(self).parsed_markdown.languages@.len() == 0
                &&& parse_transition(mid, *final(self), cmd)
            },
    {
        if crate::events::bytes_eq(&source, &self.source) {
            proof {
                assert(source@ == self.source@);
            }
            return ParseCommand::NoParse;
        }
        self.source = source;
        self.selection = Selection::default();
        self.pressed_link = None;
        self.autoscroll_request = None;
        self.should_reparse = false;
        self.parse_in_flight = false;
        self.parsed_markdown = ParsedMarkdown::default();
        self.parse()
    }

    /// Requests a parse of the current source.  An empty source is a no-op.
    /// With a parse already in flight no second task is spawned: the dirty
    /// flag is set instead, and completion re-requests.  Otherwise exactly
    /// one parse of the current source is spawned.
    pub fn parse(&mut self) -> (cmd: ParseCommand)
        requires
            old(self).wf(),
        ensures
            final(self).wf(),
            parse_transition(*old(self), *final(self), cmd),
    {
        if self.source.len() == 0 {
            return ParseCommand::NoParse;
        }
        if self.parse_in_flight {
            self.should_reparse = true;
            return ParseCommand::NoParse;
        }
        self.should_reparse = false;
        self.parse_in_flight = true;
        let snapshot = crate::text::subvec(&self.source, 0, self.source.len());
        proof {
            assert(snapshot@ =~= self.source@);
        }
        ParseCommand::Spawn(snapshot)
    }

    /// Commits a finished parse and, if the source changed mid-parse,
    /// immediately requests the follow-up parse of the current source, so
    /// no stale result ever stands.
    pub fn on_parse_complete(&mut self, parsed: ParsedMarkdown) -> (cmd: ParseCommand)
        requires
            old(self).wf(),
        ensures
            final(self).wf(),
            final(self).parsed_markdown == parsed,
            final(self).source == old(self).source,
            !old(self).should_reparse ==> !final(self).parse_in_flight && (cmd is NoParse),
            old(self).should_reparse ==> parse_transition(
                Markdown {
                    parsed_markdown: parsed,
                    parse_in_flight: false,
                    ..*old(self)
                },
                *final(self),
                cmd,
            ),
    {
        self.parsed_markdown = parsed;
        self.parse_in_flight = false;
        if self.should_reparse {
            self.parse()
        } else {
            ParseCommand::NoParse
        }
    }

    /// Extracts the selected text for the clipboard; `None` when the
    /// selection is empty.
    pub fn copy(&self, text: &RenderedText) -> (r: Option<Vec<u8>>)
        requires
            text.wf(),
        ensures
            self.selection.end <= self.selection.start ==> r is None,
            self.selection.end > self.selection.start ==> (r matches Some(t) && t@
                == crate::rendered::join_parts(
                crate::rendered::parts_for_range(
                    text.lines@,
                    0,
                    self.selection.start as int,
                    self.selection.end as int,
                ),
            )),
    {
        if self.selection.end <= self.selection.start {
            return None;
        }
        Some(text.text_for_range(self.selection.start, self.selection.end))
    }
}

/// The parse scheduler's transition relation: what one parse request does
/// to the dirty flag and the in-flight marker, and when it spawns.
pub open spec fn parse_transition(pre: Markdown, post: Markdown, cmd: ParseCommand) -> bool {
    if pre.source@.len() == 0 {
        &&& post == pre
        &&& cmd is NoParse
    } else if pre.parse_in_flight {
        &&& post == (Markdown { should_reparse: true, ..pre })
        &&& cmd is NoParse
    } else {
        &&& post == (Markdown { should_reparse: false, parse_in_flight: true, ..pre })
        &&& cmd matches ParseCommand::Spawn(s) && s@ == pre.source@
    }
}


/// What a pointer-down asks of the host.
#[derive(Clone, Copy, Debug, PartialEq, Eq, Structural)]
pub struct MouseDownOutcome {
    /// Request input focus.
    pub focus: bool,
    /// Suppress the platform's default behavior.
    pub prevent_default: bool,
    /// The view needs a repaint.
    pub notify: bool,
}

/// What a pointer-move asks of the host.
#[derive(Clone, Copy, Debug, PartialEq, Eq, Structural)]
pub struct MouseMoveOutcome {
    /// The view needs a repaint.
    pub notify: bool,
}

/// What a pointer-up asks of the host.
pub struct MouseUpOutcome {
    /// Open this destination, through the host's handler or its default.
    pub open_url: Option<Vec<u8>>,
    /// Mirror this finalized selection to a selection clipboard, on
    /// platforms that keep one.
    pub selection_text: Option<Vec<u8>>,
    /// The view needs a repaint.
    pub notify: bool,
}

/// The source offset a point resolves to, tolerant of margins: the nearest
/// boundary when the point misses the text.
pub open spec fn point_offset(rt: RenderedText, position: PixelPoint) -> usize {
    match crate::rendered::lookup_from(rt.lines@, 0, position) {
        Ok(ix) => ix,
        Err(ix) => ix,
    }
}

/// Whether a point is over some link.
pub open spec fn link_hit(rt: RenderedText, position: PixelPoint) -> bool {
    match crate::rendered::lookup_from(rt.lines@, 0, position) {
        Ok(s) => crate::rendered::link_index_at(rt.links@, s as int, 0) is Some,
        Err(_) => false,
    }
}

/// Whether the link under a point is the given one.
pub open spec fn same_link_under(rt: RenderedText, position: PixelPoint, p: RenderedLink) -> bool {
    match crate::rendered::lookup_from(rt.lines@, 0, position) {
        Ok(s) => match crate::rendered::link_index_at(rt.links@, s as int, 0) {
            Some(k) => p.same_spec(rt.links@[k]),
            None => false,
        },
        Err(_) => false,
    }
}

impl Markdown {
    /// Pointer-down dispatch.  In the bubble phase over the text, a press
    /// on a link arms it; elsewhere a press starts a selection — a caret,
    /// the surrounding word on a double click, or the surrounding line on a
    /// triple click.  In the capture phase outside the text, a press clears
    /// selection and armed link.
    pub fn handle_mouse_down(
        &mut self,
        rt: &RenderedText,
        position: PixelPoint,
        click_count: u8,
        hovered: bool,
        bubble: bool,
    ) -> (r: MouseDownOutcome)
        requires
            old(self).wf(),
            rt.wf(),
            rt.laid(),
        ensures
            final(self).wf(),
            final(self).source == old(self).source,
            hovered && bubble && link_hit(*rt, position) ==> {
                &&& final(self).pressed_link matches Some(p) && p.same_spec(
                    rt.links@[crate::rendered::link_index_at(
                        rt.links@,
                        point_offset(*rt, position) as int,
                        0,
                    ).unwrap()],
                )
                &&& final(self).selection == old(self).selection
                &&& r == (MouseDownOutcome { focus: false, prevent_default: false, notify: true })
            },
            hovered && bubble && !link_hit(*rt, position) ==> {
                let six = point_offset(*rt, position) as int;
                let range = if click_count == 2 {
                    crate::rendered::word_range_from(rt.lines@, 0, six)
                } else if click_count == 3 {
                    crate::rendered::line_range_from(rt.lines@, 0, six)
                } else {
                    (six, six)
                };
                &&& final(self).selection == (Selection {
                    start: range.0 as usize,
                    end: range.1 as usize,
                    reversed: false,
                    pending: true,
                })
                &&& r == (MouseDownOutcome { focus: true, prevent_default: true, notify: true })
            },
            !hovered && !bubble ==> {
                &&& final(self).selection == (Selection {
                    start: 0usize,
                    end: 0usize,
                    reversed: false,
                    pending: false,
                })
                &&& final(self).pressed_link is None
                &&& r == (MouseDownOutcome { focus: false, prevent_default: false, notify: true })
            },
            (hovered != bubble) ==> *final(self) == *old(self) && r == (MouseDownOutcome {
                focus: false,
                prevent_default: false,
                notify: false,
            }),
    {
        if hovered {
            if bubble {
                match rt.link_for_position(position) {
                    Some(link) => {
                        let pressed = RenderedLink {
                            source_start: link.source_start,
                            source_end: link.source_end,
                            destination_url: crate::text::subvec(
                                &link.destination_url,
                                0,
                                link.destination_url.len(),
                            ),
                        };
                        proof {
                            assert(pressed.destination_url@ =~= link.destination_url@);
                        }
                        self.pressed_link = Some(pressed);
                        return MouseDownOutcome { focus: false, prevent_default: false, notify: true };
                    },
                    None => {
                        let source_index = match rt.source_index_for_position(position) {
                            Ok(ix) => ix,
                            Err(ix) => ix,
                        };
                        let range: (usize, usize) = if click_count == 2 {
                            rt.surrounding_word_range(source_index)
                        } else if click_count == 3 {
                            rt.surrounding_line_range(source_index)
                        } else {
                            (source_index, source_index)
                        };
                        self.selection = Selection {
                            start: range.0,
                            end: range.1,
                            reversed: false,
                            pending: true,
                        };
                        return MouseDownOutcome { focus: true, prevent_default: true, notify: true };
                    },
                }
            }
        } else if !bubble {
            self.selection = Selection::default();
            self.pressed_link = None;
            return MouseDownOutcome { focus: false, prevent_default: false, notify: true };
        }
        MouseDownOutcome { focus: false, prevent_default: false, notify: false }
    }

    /// Pointer-move dispatch, bubble phase only.  During a drag the head of
    /// the selection follows the pointer and an autoscroll toward it is
    /// requested; otherwise only a hover-state change asks for a repaint.
    pub fn handle_mouse_move(
        &mut self,
        rt: &RenderedText,
        position: PixelPoint,
        hovered: bool,
        was_hovering_link: bool,
        bubble: bool,
    ) -> (r: MouseMoveOutcome)
        requires
            old(self).wf(),
            rt.wf(),
            rt.laid(),
        ensures
            final(self).wf(),
            !bubble ==> *final(self) == *old(self) && !r.notify,
            bubble && old(self).selection.pending ==> {
                let six = point_offset(*rt, position);
                &&& final(self).selection.tail_spec() == old(self).selection.tail_spec()
                &&& final(self).selection.head_spec() == six
                &&& final(self).selection.pending == old(self).selection.pending
                &&& final(self).autoscroll_request == Some(six)
                &&& r.notify
            },
            bubble && !old(self).selection.pending ==> {
                &&& *final(self) == *old(self)
                &&& r.notify == ((hovered && link_hit(*rt, position)) != was_hovering_link)
            },
    {
        if !bubble {
            return MouseMoveOutcome { notify: false };
        }
        if self.selection.pending {
            let source_index = match rt.source_index_for_position(position) {
                Ok(ix) => ix,
                Err(ix) => ix,
            };
            self.selection.set_head(source_index);
            self.autoscroll_request = Some(source_index);
            MouseMoveOutcome { notify: true }
        } else {
            let is_hovering_link = hovered && rt.link_for_position(position).is_some();
            MouseMoveOutcome { notify: is_hovering_link != was_hovering_link }
        }
    }

    /// Pointer-up dispatch.  In the bubble phase an armed link fires when
    /// the pointer releases over the same link.  In the capture phase a
    /// drag in progress is finalized, handing back the selected text for a
    /// platform selection clipboard.
    pub fn handle_mouse_up(&mut self, rt: &RenderedText, position: PixelPoint, bubble: bool) -> (r:
        MouseUpOutcome)
        requires
            old(self).wf(),
            rt.wf(),
            rt.laid(),
        ensures
            final(self).wf(),
            bubble ==> {
                &&& final(self).pressed_link is None
                &&& final(self).selection == old(self).selection
                &&& match old(self).pressed_link {
                    Some(p) => {
                        &&& !r.notify
                        &&& (r.open_url is Some) == same_link_under(*rt, position, p)
                        &&& (r.open_url matches Some(u) ==> u@ == p.destination_url@)
                    },
                    None => !r.notify && r.open_url is None,
                }
            },
            !bubble && old(self).selection.pending ==> {
                &&& final(self).selection == (Selection { pending: false, ..old(self).selection })
                &&& r.selection_text matches Some(t) && t@ == crate::rendered::join_parts(
                    crate::rendered::parts_for_range(
                        rt.lines@,
                        0,
                        old(self).selection.start as int,
                        old(self).selection.end as int,
                    ),
                )
                &&& r.notify
            },
            !bubble && !old(self).selection.pending ==> *final(self) == *old(self) && !r.notify
                && r.open_url is None && r.selection_text is None,
    {
        if bubble {
            let mut pressed: Option<RenderedLink> = None;
            core::mem::swap(&mut pressed, &mut self.pressed_link);
            if let Some(p) = pressed {
                if let Some(found) = rt.link_for_position(position) {
                    if p.same_link(found) {
                        return MouseUpOutcome {
                            open_url: Some(p.destination_url),
                            selection_text: None,
                            notify: false,
                        };
                    }
                }
            }
            MouseUpOutcome { open_url: None, selection_text: None, notify: false }
        } else if self.selection.pending {
            self.selection.pending = false;
            let text = rt.text_for_range(self.selection.start, self.selection.end);
            MouseUpOutcome { open_url: None, selection_text: Some(text), notify: true }
        } else {
            MouseUpOutcome { open_url: None, selection_text: None, notify: false }
        }
    }

    /// Takes the pending autoscroll request and turns it into the viewport
    /// rectangle to keep in view: a margin of three character widths and
    /// three line heights around the selection head.
    pub fn autoscroll_bounds(&mut self, rt: &RenderedText, em_width: u32) -> (r: Option<PixelRect>)
        requires
            old(self).wf(),
            rt.wf(),
            rt.laid(),
        ensures
            final(self).wf(),
            final(self).autoscroll_request is None,
            old(self).autoscroll_request is None ==> r is None,
            old(self).autoscroll_request matches Some(ix) ==> match crate::rendered::position_from(
                rt.lines@,
                0,
                ix as int,
            ) {
                Some(pl) => r == Some(
                    PixelRect {
                        left: sat_sub(pl.0.x, sat_mul3(em_width)),
                        top: sat_sub(pl.0.y, sat_mul3(pl.1)),
                        right: sat_add(pl.0.x, sat_mul3(em_width)),
                        bottom: sat_add(pl.0.y, sat_mul3(pl.1)),
                    },
                ),
                None => r is None,
            },
    {
        let mut request: Option<usize> = None;
        core::mem::swap(&mut request, &mut self.autoscroll_request);
        let ix = match request {
            Some(ix) => ix,
            None => {
                return None;
            },
        };
        match rt.position_for_source_index(ix) {
            Some((position, line_height)) => {
                let em3 = mul3(em_width);
                let lh3 = mul3(line_height);
                Some(
                    PixelRect {
                        left: sub_floor(position.x, em3),
                        top: sub_floor(position.y, lh3),
                        right: add_cap(position.x, em3),
                        bottom: add_cap(position.y, lh3),
                    },
                )
            },
            None => None,
        }
    }
}

/// Saturating triple of a pixel measure.
pub open spec fn sat_mul3(a: u32) -> u32 {
    if 3 * a > u32::MAX {
        u32::MAX
    } else {
        (3 * a) as u32
    }
}

/// Saturating subtraction, clamping at the viewport's origin.
pub open spec fn sat_sub(a: u32, b: u32) -> u32 {
    if a >= b {
        (a - b) as u32
    } else {
        0
    }
}

/// Saturating addition.
pub open spec fn sat_add(a: u32, b: u32) -> u32 {
    if a + b > u32::MAX {
        u32::MAX
    } else {
        (a + b) as u32
    }
}

/// Triples a pixel measure, saturating.
pub fn mul3(a: u32) -> (r: u32)
    ensures
        r == sat_mul3(a),
{
    if a > u32::MAX / 3 {
        u32::MAX
    } else {
        3 * a
    }
}

/// Subtracts, clamping at zero.
pub fn sub_floor(a: u32, b: u32) -> (r: u32)
    ensures
        r == sat_sub(a, b),
{
    if a >= b {
        a - b
    } else {
        0
    }
}

/// Adds, clamping at the maximum.
pub fn add_cap(a: u32, b: u32) -> (r: u32)
    ensures
        r == sat_add(a, b),
{
    if a > u32::MAX - b {
        u32::MAX
    } else {
        a + b
    }
}

/// The rectangles that paint a selection: one rectangle on a single line,
/// or up to three — the head line's tail, the fully covered middle, and the
/// tail line's head — across lines.  Empty when either endpoint is outside
/// the rendered text.
pub open spec fn selection_quads_spec(
    bounds: PixelRect,
    lines: Seq<crate::rendered::RenderedLine>,
    sel: Selection,
) -> Seq<PixelRect> {
    let sp = crate::rendered::position_from(lines, 0, sel.start as int);
    let ep = crate::rendered::position_from(lines, 0, sel.end as int);
    if sp is Some && ep is Some {
        let (s, slh) = sp.unwrap();
        let (e, elh) = ep.unwrap();
        if s.y == e.y {
            seq![
                PixelRect { left: s.x, top: s.y, right: e.x, bottom: sat_add(e.y, elh) },
            ]
        } else {
            let first = PixelRect {
                left: s.x,
                top: s.y,
                right: bounds.right,
                bottom: sat_add(s.y, slh),
            };
            let last = PixelRect {
                left: bounds.left,
                top: e.y,
                right: e.x,
                bottom: sat_add(e.y, elh),
            };
            if e.y > sat_add(s.y, slh) {
                seq![first]
                    + seq![
                    PixelRect {
                        left: bounds.left,
                        top: sat_add(s.y, slh),
                        right: bounds.right,
                        bottom: e.y,
                    },
                ] + seq![last]
            } else {
                seq![first] + seq![last]
            }
        }
    } else {
        Seq::empty()
    }
}

/// Computes the selection rectangles for painting.
pub fn selection_quads(bounds: PixelRect, rt: &RenderedText, sel: Selection) -> (r: Vec<PixelRect>)
    requires
        rt.wf(),
        rt.laid(),
    ensures
        r@ == selection_quads_spec(bounds, rt.lines@, sel),
{
    let mut r: Vec<PixelRect> = Vec::new();
    let sp = rt.position_for_source_index(sel.start);
    let ep = rt.position_for_source_index(sel.end);
    match (sp, ep) {
        (Some((s, slh)), Some((e, elh))) => {
            if s.y == e.y {
                r.push(
                    PixelRect { left: s.x, top: s.y, right: e.x, bottom: add_cap(e.y, elh) },
                );
            } else {
                r.push(
                    PixelRect {
                        left: s.x,
                        top: s.y,
                        right: bounds.right,
                        bottom: add_cap(s.y, slh),
                    },
                );
                let first_bottom = add_cap(s.y, slh);
                if e.y > first_bottom {
                    r.push(
                        PixelRect {
                            left: bounds.left,
                            top: first_bottom,
                            right: bounds.right,
                            bottom: e.y,
                        },
                    );
                }
                r.push(
                    PixelRect { left: bounds.left, top: e.y, right: e.x, bottom: add_cap(e.y, elh) },
                );
            }
            proof {
                assert(r@ =~= selection_quads_spec(bounds, rt.lines@, sel));
            }
            r
        },
        _ => {
            proof {
                assert(r@ =~= selection_quads_spec(bounds, rt.lines@, sel));
            }
            r
        },
    }
}

} // verus!
