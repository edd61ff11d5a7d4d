//! Tests for the rendered-text index: position lookups, word and line
//! ranges, range extraction, and link hit-testing.

use markdown::layout::{GlyphRow, LineLayout, PixelPoint};
use markdown::rendered::{RenderedLine, RenderedLink, RenderedText, SourceMapping};

const CHAR_W: u32 = 10;
const LINE_H: u32 = 16;

/// A single-row monospace layout for `len` glyphs, with its top at `y`.
fn mono_layout(len: usize, y: u32) -> LineLayout {
    let glyph_x: Vec<u32> = (0..len).map(|i| i as u32 * CHAR_W).collect();
    LineLayout {
        rows: vec![GlyphRow { start: 0, end: len, y, glyph_x, end_x: len as u32 * CHAR_W }],
        line_height: LINE_H,
    }
}

/// A line whose rendered text was copied contiguously from the source at
/// `source_start`, laid out at `y`.
fn plain_line(text: &str, source_start: usize, y: u32) -> RenderedLine {
    RenderedLine {
        text: text.as_bytes().to_vec(),
        source_mappings: vec![SourceMapping { rendered_index: 0, source_index: source_start }],
        source_end: source_start + text.len(),
        layout: mono_layout(text.len(), y),
    }
}

/// Two plain lines over the source `"first line\nsecond line"`.
fn two_lines() -> RenderedText {
    RenderedText {
        lines: vec![plain_line("first line", 0, 0), plain_line("second line", 11, 20)],
        links: Vec::new(),
    }
}

#[test]
fn position_roundtrip_on_glyph() {
    let rt = two_lines();
    let (pos, lh) = rt.position_for_source_index(3).unwrap();
    assert_eq!((pos.x, pos.y, lh), (30, 0, LINE_H));
    assert_eq!(rt.source_index_for_position(pos), Ok(3));

    let (pos2, _) = rt.position_for_source_index(13).unwrap();
    assert_eq!((pos2.x, pos2.y), (20, 20));
    assert_eq!(rt.source_index_for_position(pos2), Ok(13));
}

#[test]
fn position_lookup_in_gap_reports_boundary() {
    let rt = two_lines();
    // The vertical gap between the lines maps to the first line's end.
    let p = PixelPoint { x: 5, y: 17 };
    assert_eq!(rt.source_index_for_position(p), Err(10));
    // Past the last line maps to the last line's end.
    let p = PixelPoint { x: 5, y: 500 };
    assert_eq!(rt.source_index_for_position(p), Err(22));
}

#[test]
fn surrounding_word_range_stays_in_line() {
    let rt = two_lines();
    // Offset inside "line" of "first line".
    let (ws, we) = rt.surrounding_word_range(7);
    assert_eq!((ws, we), (6, 10));
    assert!(ws <= 7 && 7 <= we);
    // Offset inside "second": expands to the word, not across the break.
    let (ws, we) = rt.surrounding_word_range(13);
    assert_eq!((ws, we), (11, 17));
    // Offset past all lines: the empty range at the offset.
    let (ws, we) = rt.surrounding_word_range(99);
    assert_eq!((ws, we), (99, 99));
}

#[test]
fn triple_click_selects_single_line_not_paragraph() {
    let rt = two_lines();
    // A click inside the first rendered line of the two-line text.
    let click = PixelPoint { x: 30, y: 5 };
    let offset = match rt.source_index_for_position(click) {
        Ok(ix) => ix,
        Err(ix) => ix,
    };
    let (ls, le) = rt.surrounding_line_range(offset);
    assert_eq!((ls, le), (0, 10));
    // The second line's range likewise covers only itself.
    let (ls, le) = rt.surrounding_line_range(15);
    assert_eq!((ls, le), (11, 22));
}

#[test]
fn text_for_range_clips_and_joins() {
    let rt = two_lines();
    let out = rt.text_for_range(6, 17);
    assert_eq!(String::from_utf8(out).unwrap(), "line\nsecond");
    let out = rt.text_for_range(0, 22);
    assert_eq!(String::from_utf8(out).unwrap(), "first line\nsecond line");
    let out = rt.text_for_range(3, 3);
    assert_eq!(String::from_utf8(out).unwrap(), "");
}

#[test]
fn text_for_range_matches_source_slicing_on_plain_text() {
    // A freshly reset-then-appended plain paragraph renders one line whose
    // text is the source itself; extraction equals direct slicing.
    let source = "plain paragraph text";
    let rt = RenderedText { lines: vec![plain_line(source, 0, 0)], links: Vec::new() };
    for (a, b) in [(0usize, 5usize), (3, 11), (0, source.len()), (7, 7)] {
        let out = rt.text_for_range(a, b);
        assert_eq!(out, source.as_bytes()[a..b].to_vec());
    }
}

#[test]
fn link_for_position_resolves_only_inside_links() {
    // Rendered form of "**bold** [link](http://example.com) text".
    let line = RenderedLine {
        text: "bold link text".as_bytes().to_vec(),
        source_mappings: vec![
            SourceMapping { rendered_index: 0, source_index: 2 },
            SourceMapping { rendered_index: 4, source_index: 8 },
            SourceMapping { rendered_index: 5, source_index: 10 },
            SourceMapping { rendered_index: 9, source_index: 35 },
        ],
        source_end: 40,
        layout: mono_layout(14, 0),
    };
    let rt = RenderedText {
        lines: vec![line],
        links: vec![RenderedLink {
            source_start: 9,
            source_end: 35,
            destination_url: "http://example.com".as_bytes().to_vec(),
        }],
    };
    // Inside the rendered "link" (glyphs 5..9).
    let hit = rt.link_for_position(PixelPoint { x: 62, y: 4 });
    let link = hit.expect("expected a link under the pointer");
    assert_eq!(link.destination_url, "http://example.com".as_bytes().to_vec());
    assert_eq!((link.source_start, link.source_end), (9, 35));
    // Inside the rendered "bold" (glyphs 0..4).
    assert!(rt.link_for_position(PixelPoint { x: 15, y: 4 }).is_none());
}

#[test]
fn position_lookup_above_first_line_is_nearest_boundary() {
    let rt = RenderedText {
        lines: vec![plain_line("first line", 0, 10), plain_line("second line", 11, 40)],
        links: Vec::new(),
    };
    // Above the first line's top: the first line answers with its start.
    let p = PixelPoint { x: 35, y: 2 };
    assert_eq!(rt.source_index_for_position(p), Err(0));
}

#[test]
fn empty_index_answers_with_zero() {
    let rt = RenderedText { lines: Vec::new(), links: Vec::new() };
    assert_eq!(rt.source_index_for_position(PixelPoint { x: 5, y: 5 }), Err(0));
    assert!(rt.position_for_source_index(3).is_none());
    assert_eq!(rt.surrounding_word_range(3), (3, 3));
    assert_eq!(rt.surrounding_line_range(3), (3, 3));
    assert_eq!(rt.text_for_range(0, 10), Vec::<u8>::new());
}

#[test]
fn word_range_with_offset_before_line_start_clamps_to_line() {
    // The line starts at source offset 4; asking about offset 2 (in a gap)
    // clamps to the line's start and never crosses the line.
    let rt = RenderedText { lines: vec![plain_line("alpha beta", 4, 0)], links: Vec::new() };
    let (ws, we) = rt.surrounding_word_range(2);
    assert_eq!((ws, we), (4, 9));
}
