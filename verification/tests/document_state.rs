//! Tests for the parse scheduler and the interactive pointer handlers.

use markdown::document::{selection_quads, Markdown, ParseCommand};
use markdown::rendered::RenderedLink;
use markdown::selection::Selection;
use markdown::events::{MdEvent, MdEventItem, MdTag, MdTagEnd, ParsedMarkdown};
use markdown::layout::{GlyphRow, LineLayout, PixelPoint, PixelRect};
use markdown::rendered::{RenderedLine, RenderedText, SourceMapping};
use markdown::style::MarkdownStyle;

fn bytes(s: &str) -> Vec<u8> {
    s.as_bytes().to_vec()
}

fn spawned(cmd: &ParseCommand) -> Option<Vec<u8>> {
    match cmd {
        ParseCommand::Spawn(s) => Some(s.clone()),
        ParseCommand::NoParse => None,
    }
}

/// A stand-in parse result for a source snapshot.
fn fake_parse(source: &[u8]) -> ParsedMarkdown {
    ParsedMarkdown {
        source: source.to_vec(),
        events: vec![MdEventItem {
            start: 0,
            end: source.len(),
            event: MdEvent::Start(MdTag::Paragraph),
        }, MdEventItem {
            start: 0,
            end: source.len(),
            event: MdEvent::End(MdTagEnd::Paragraph),
        }],
        languages: Vec::new(),
    }
}

#[test]
fn new_document_spawns_one_parse() {
    let (doc, cmd) = Markdown::new(bytes("# hi"), MarkdownStyle::default(), None);
    assert!(doc.parse_in_flight);
    assert_eq!(spawned(&cmd), Some(bytes("# hi")));
}

#[test]
fn empty_source_parse_is_a_no_op() {
    let (doc, cmd) = Markdown::new(Vec::new(), MarkdownStyle::default(), None);
    assert!(!doc.parse_in_flight);
    assert!(spawned(&cmd).is_none());
}

#[test]
fn reset_to_identical_source_is_a_no_op() {
    let (mut doc, cmd) = Markdown::new(bytes("# hi"), MarkdownStyle::default(), None);
    let first = spawned(&cmd).unwrap();
    let cmd = doc.reset(first.clone());
    // Same source: no second parse task, no dirty flag.
    assert!(spawned(&cmd).is_none());
    assert!(!doc.should_reparse);
    assert!(doc.parse_in_flight);
}

#[test]
fn request_during_flight_only_sets_dirty_flag() {
    let (mut doc, cmd) = Markdown::new(bytes("# hi"), MarkdownStyle::default(), None);
    assert!(spawned(&cmd).is_some());
    let cmd = doc.parse();
    assert!(spawned(&cmd).is_none());
    assert!(doc.should_reparse);
    assert!(doc.parse_in_flight);
}

#[test]
fn append_during_flight_commits_fully_appended_source() {
    // Start a parse of the initial source.
    let (mut doc, cmd) = Markdown::new(bytes("# hi"), MarkdownStyle::default(), None);
    let first_snapshot = spawned(&cmd).unwrap();
    // The source grows while the (slow) parse is still in flight.
    let cmd = doc.append(&bytes(" there"));
    assert!(spawned(&cmd).is_none());
    assert!(doc.should_reparse);
    // The stale parse completes: it is committed, then immediately
    // superseded by a parse of the full appended source.
    let cmd = doc.on_parse_complete(fake_parse(&first_snapshot));
    let second_snapshot = spawned(&cmd).unwrap();
    assert_eq!(second_snapshot, bytes("# hi there"));
    // The follow-up parse completes; the final committed document reflects
    // the fully appended source, and nothing further is spawned.
    let cmd = doc.on_parse_complete(fake_parse(&second_snapshot));
    assert!(spawned(&cmd).is_none());
    assert_eq!(doc.parsed_markdown().source(), &bytes("# hi there"));
    assert!(!doc.parse_in_flight);
    assert!(!doc.should_reparse);
}

fn mono_layout(len: usize, y: u32) -> LineLayout {
    let glyph_x: Vec<u32> = (0..len).map(|i| i as u32 * 10).collect();
    LineLayout {
        rows: vec![GlyphRow { start: 0, end: len, y, glyph_x, end_x: len as u32 * 10 }],
        line_height: 16,
    }
}

fn plain_line(text: &str, source_start: usize, y: u32) -> RenderedLine {
    RenderedLine {
        text: text.as_bytes().to_vec(),
        source_mappings: vec![SourceMapping { rendered_index: 0, source_index: source_start }],
        source_end: source_start + text.len(),
        layout: mono_layout(text.len(), y),
    }
}

fn two_line_text() -> RenderedText {
    RenderedText {
        lines: vec![plain_line("first line", 0, 0), plain_line("second line", 11, 20)],
        links: Vec::new(),
    }
}

#[test]
fn drag_extends_selection_and_requests_autoscroll() {
    let rt = two_line_text();
    let (mut doc, _) =
        Markdown::new(bytes("first line\nsecond line"), MarkdownStyle::default(), None);
    // Press at offset 2 starts a pending caret selection.
    let down = doc.handle_mouse_down(&rt, PixelPoint { x: 20, y: 4 }, 1, true, true);
    assert!(down.focus && down.prevent_default && down.notify);
    assert_eq!((doc.selection.start, doc.selection.end), (2, 2));
    assert!(doc.selection.pending);
    // Drag to offset 16 on the second line extends the head.
    let mv = doc.handle_mouse_move(&rt, PixelPoint { x: 50, y: 24 }, true, false, true);
    assert!(mv.notify);
    assert_eq!((doc.selection.start, doc.selection.end), (2, 16));
    assert_eq!(doc.autoscroll_request, Some(16));
    // Release finalizes the selection and mirrors the text.
    let up = doc.handle_mouse_up(&rt, PixelPoint { x: 50, y: 24 }, false);
    assert!(up.notify);
    assert!(!doc.selection.pending);
    assert_eq!(up.selection_text.unwrap(), bytes("rst line\nsecon"));
    // The autoscroll request resolves to a margin around the head.
    let bounds = doc.autoscroll_bounds(&rt, 10).unwrap();
    assert_eq!(bounds, PixelRect { left: 20, top: 0, right: 80, bottom: 68 });
    assert!(doc.autoscroll_request.is_none());
}

#[test]
fn triple_click_selects_clicked_line_only() {
    let rt = two_line_text();
    let (mut doc, _) =
        Markdown::new(bytes("first line\nsecond line"), MarkdownStyle::default(), None);
    let down = doc.handle_mouse_down(&rt, PixelPoint { x: 30, y: 5 }, 3, true, true);
    assert!(down.notify);
    assert_eq!((doc.selection.start, doc.selection.end), (0, 10));
    assert!(doc.selection.pending);
}

#[test]
fn click_away_clears_selection() {
    let rt = two_line_text();
    let (mut doc, _) =
        Markdown::new(bytes("first line\nsecond line"), MarkdownStyle::default(), None);
    doc.handle_mouse_down(&rt, PixelPoint { x: 20, y: 4 }, 2, true, true);
    assert!(doc.selection.end > doc.selection.start);
    let down = doc.handle_mouse_down(&rt, PixelPoint { x: 900, y: 900 }, 1, false, false);
    assert!(down.notify);
    assert_eq!((doc.selection.start, doc.selection.end), (0, 0));
}

#[test]
fn link_press_and_release_fires_open_url() {
    let mut rt = two_line_text();
    rt.links.push(RenderedLink {
        source_start: 6,
        source_end: 10,
        destination_url: bytes("http://example.com"),
    });
    let (mut doc, _) =
        Markdown::new(bytes("first line\nsecond line"), MarkdownStyle::default(), None);
    // Press over the link arms it without starting a selection.
    let p = PixelPoint { x: 72, y: 4 };
    let down = doc.handle_mouse_down(&rt, p, 1, true, true);
    assert!(down.notify && !down.focus);
    assert!(doc.pressed_link.is_some());
    // Release over the same link opens it.
    let up = doc.handle_mouse_up(&rt, p, true);
    assert_eq!(up.open_url.unwrap(), bytes("http://example.com"));
    assert!(doc.pressed_link.is_none());
}

#[test]
fn copy_returns_selected_text_only_when_nonempty() {
    let rt = two_line_text();
    let (mut doc, _) =
        Markdown::new(bytes("first line\nsecond line"), MarkdownStyle::default(), None);
    assert!(doc.copy(&rt).is_none());
    doc.selection.start = 0;
    doc.selection.end = 5;
    assert_eq!(doc.copy(&rt).unwrap(), bytes("first"));
}

#[test]
fn selection_quads_cover_single_and_multi_line_selections() {
    let rt = two_line_text();
    let bounds = PixelRect { left: 0, top: 0, right: 200, bottom: 100 };
    // Same line: one rectangle.
    let sel = Selection { start: 2, end: 7, reversed: false, pending: false };
    let quads = selection_quads(bounds, &rt, sel);
    assert_eq!(quads, vec![PixelRect { left: 20, top: 0, right: 70, bottom: 16 }]);
    // Across the two lines with a gap: three rectangles.
    let sel = Selection { start: 2, end: 16, reversed: false, pending: false };
    let quads = selection_quads(bounds, &rt, sel);
    assert_eq!(quads.len(), 3);
    assert_eq!(quads[0], PixelRect { left: 20, top: 0, right: 200, bottom: 16 });
    assert_eq!(quads[1], PixelRect { left: 0, top: 16, right: 200, bottom: 20 });
    assert_eq!(quads[2], PixelRect { left: 0, top: 20, right: 50, bottom: 36 });
}
