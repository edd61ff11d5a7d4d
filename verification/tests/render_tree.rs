//! Tests for the render-tree builder: lines, mappings, links, code blocks,
//! bullets, and highlight runs.

use markdown::builder::{build_render_tree, events_well_formed, BlockKind, MdNode};
use markdown::events::{bytes_eq, language_for, push_language, query_for_name, CodeFence, LanguageBinding, MdEvent, MdEventItem, MdTag, MdTagEnd};
use markdown::layout::{GlyphRow, LineLayout, PixelPoint};
use markdown::style::{HighlightSpan, MarkdownStyle};

fn ev(start: usize, end: usize, event: MdEvent) -> MdEventItem {
    MdEventItem { start, end, event }
}

fn no_highlights(n: usize) -> Vec<Vec<HighlightSpan>> {
    (0..n).map(|_| Vec::new()).collect()
}

fn mono_layout(len: usize, y: u32) -> LineLayout {
    let glyph_x: Vec<u32> = (0..len).map(|i| i as u32 * 10).collect();
    LineLayout {
        rows: vec![GlyphRow { start: 0, end: len, y, glyph_x, end_x: len as u32 * 10 }],
        line_height: 16,
    }
}

/// The event stream for `"**bold** [link](http://example.com) text"`.
fn linked_paragraph() -> (Vec<u8>, Vec<MdEventItem>) {
    let source = "**bold** [link](http://example.com) text".as_bytes().to_vec();
    let url = "http://example.com".as_bytes().to_vec();
    let events = vec![
        ev(0, 40, MdEvent::Start(MdTag::Paragraph)),
        ev(0, 8, MdEvent::Start(MdTag::Strong)),
        ev(2, 6, MdEvent::Text("bold".as_bytes().to_vec())),
        ev(0, 8, MdEvent::End(MdTagEnd::Strong)),
        ev(8, 9, MdEvent::Text(" ".as_bytes().to_vec())),
        ev(9, 35, MdEvent::Start(MdTag::Link(url))),
        ev(10, 14, MdEvent::Text("link".as_bytes().to_vec())),
        ev(9, 35, MdEvent::End(MdTagEnd::Link)),
        ev(35, 40, MdEvent::Text(" text".as_bytes().to_vec())),
        ev(0, 40, MdEvent::End(MdTagEnd::Paragraph)),
    ];
    (source, events)
}

#[test]
fn builder_collects_exactly_one_link() {
    let (source, events) = linked_paragraph();
    let n = events.len();
    let rendered = build_render_tree(
        &events,
        &source,
        &Vec::new(),
        &no_highlights(n),
        &MarkdownStyle::default(),
        true,
    );
    assert_eq!(rendered.text.links.len(), 1);
    let link = &rendered.text.links[0];
    assert_eq!(link.destination_url, "http://example.com".as_bytes().to_vec());
    assert_eq!((link.source_start, link.source_end), (9, 35));
}

#[test]
fn builder_line_text_and_link_hit_testing() {
    let (source, events) = linked_paragraph();
    let n = events.len();
    let rendered = build_render_tree(
        &events,
        &source,
        &Vec::new(),
        &no_highlights(n),
        &MarkdownStyle::default(),
        true,
    );
    assert_eq!(rendered.text.lines.len(), 1);
    assert_eq!(rendered.text.lines[0].text, "bold link text".as_bytes().to_vec());
    let text_len = rendered.text.lines[0].text.len();
    let rt = rendered.text.with_layouts(vec![mono_layout(text_len, 0)]);
    // A point inside the rendered "link" resolves to the link.
    let hit = rt.link_for_position(PixelPoint { x: 62, y: 4 });
    assert_eq!(
        hit.expect("link expected").destination_url,
        "http://example.com".as_bytes().to_vec()
    );
    // A point inside the rendered "bold" resolves to no link.
    assert!(rt.link_for_position(PixelPoint { x: 15, y: 4 }).is_none());
}

#[test]
fn code_block_trims_newline_and_offers_copy_text() {
    let source = "```rust\nlet x = 5;\n```".as_bytes().to_vec();
    let events = vec![
        ev(0, 22, MdEvent::Start(MdTag::CodeBlock(CodeFence::Fenced("rust".as_bytes().to_vec())))),
        ev(8, 19, MdEvent::Text("let x = 5;\n".as_bytes().to_vec())),
        ev(0, 22, MdEvent::End(MdTagEnd::CodeBlock)),
    ];
    let rendered = build_render_tree(
        &events,
        &source,
        &Vec::new(),
        &no_highlights(3),
        &MarkdownStyle::default(),
        true,
    );
    // The artificial trailing newline is trimmed from the rendered line.
    assert_eq!(rendered.text.lines.len(), 1);
    assert_eq!(rendered.text.lines[0].text, "let x = 5;".as_bytes().to_vec());
    // The wrapper offers the fence-stripped text for the copy button.
    let wrapper = match &rendered.root.children[0] {
        MdNode::Block(b) => b,
        _ => panic!("expected a block"),
    };
    assert!(matches!(wrapper.kind, BlockKind::CodeBlockWrapper));
    assert_eq!(wrapper.copy_code.as_ref().unwrap(), &"let x = 5;\n".as_bytes().to_vec());
}

#[test]
fn highlighted_code_splits_runs_at_boundaries() {
    let source = "```rust\nlet x = 5;\n```".as_bytes().to_vec();
    let events = vec![
        ev(0, 22, MdEvent::Start(MdTag::CodeBlock(CodeFence::Fenced("rust".as_bytes().to_vec())))),
        ev(8, 19, MdEvent::Text("let x = 5;\n".as_bytes().to_vec())),
        ev(0, 22, MdEvent::End(MdTagEnd::CodeBlock)),
    ];
    let languages = vec![LanguageBinding { name: "rust".as_bytes().to_vec(), language: 7 }];
    let highlights = vec![
        Vec::new(),
        vec![HighlightSpan { start: 0, end: 3, class: 1 }],
        Vec::new(),
    ];
    let rendered = build_render_tree(
        &events,
        &source,
        &languages,
        &highlights,
        &MarkdownStyle::default(),
        false,
    );
    // Find the code block's text leaf and check the runs: "let" classified,
    // the rest ambient, the trailing newline trimmed off the last run.
    let wrapper = match &rendered.root.children[0] {
        MdNode::Block(b) => b,
        _ => panic!("expected a block"),
    };
    assert!(wrapper.copy_code.is_none());
    let code = match &wrapper.children[0] {
        MdNode::Block(b) => b,
        _ => panic!("expected the code block"),
    };
    let (line, runs) = match &code.children[0] {
        MdNode::TextLine { line, runs } => (*line, runs),
        _ => panic!("expected a text line"),
    };
    assert_eq!(line, 0);
    assert_eq!(runs.len(), 2);
    assert_eq!((runs[0].len, runs[0].highlight), (3, Some(1)));
    assert_eq!((runs[1].len, runs[1].highlight), (7, None));
}

#[test]
fn ordered_list_numbers_items_from_start() {
    let source = "3. a\n4. b\n".as_bytes().to_vec();
    let events = vec![
        ev(0, 10, MdEvent::Start(MdTag::List(Some(3)))),
        ev(0, 5, MdEvent::Start(MdTag::Item)),
        ev(3, 4, MdEvent::Text("a".as_bytes().to_vec())),
        ev(0, 5, MdEvent::End(MdTagEnd::Item)),
        ev(5, 10, MdEvent::Start(MdTag::Item)),
        ev(8, 9, MdEvent::Text("b".as_bytes().to_vec())),
        ev(5, 10, MdEvent::End(MdTagEnd::Item)),
        ev(0, 10, MdEvent::End(MdTagEnd::List)),
    ];
    let rendered = build_render_tree(
        &events,
        &source,
        &Vec::new(),
        &no_highlights(8),
        &MarkdownStyle::default(),
        true,
    );
    let list = match &rendered.root.children[0] {
        MdNode::Block(b) => b,
        _ => panic!("expected the list"),
    };
    assert!(matches!(list.kind, BlockKind::List));
    let bullets: Vec<Option<u64>> = list
        .children
        .iter()
        .filter_map(|c| match c {
            MdNode::Block(b) => match b.kind {
                BlockKind::Item(ix) => Some(ix),
                _ => None,
            },
            _ => None,
        })
        .collect();
    assert_eq!(bullets, vec![Some(3), Some(4)]);
}

#[test]
fn first_and_last_blocks_suppress_outer_margins() {
    let source = "a\n\nb".as_bytes().to_vec();
    let events = vec![
        ev(0, 2, MdEvent::Start(MdTag::Paragraph)),
        ev(0, 1, MdEvent::Text("a".as_bytes().to_vec())),
        ev(0, 2, MdEvent::End(MdTagEnd::Paragraph)),
        ev(3, 4, MdEvent::Start(MdTag::Paragraph)),
        ev(3, 4, MdEvent::Text("b".as_bytes().to_vec())),
        ev(3, 4, MdEvent::End(MdTagEnd::Paragraph)),
    ];
    let rendered = build_render_tree(
        &events,
        &source,
        &Vec::new(),
        &no_highlights(6),
        &MarkdownStyle::default(),
        true,
    );
    let first = match &rendered.root.children[0] {
        MdNode::Block(b) => b,
        _ => panic!("expected a paragraph"),
    };
    let last = match &rendered.root.children[1] {
        MdNode::Block(b) => b,
        _ => panic!("expected a paragraph"),
    };
    assert!(first.suppress_top_margin && !first.suppress_bottom_margin);
    assert!(!last.suppress_top_margin && last.suppress_bottom_margin);
}

#[test]
fn language_helpers_resolve_and_fall_back() {
    let fallback = Some("text".as_bytes().to_vec());
    assert_eq!(
        query_for_name(&"rust".as_bytes().to_vec(), &fallback),
        Some("rust".as_bytes().to_vec())
    );
    assert_eq!(query_for_name(&Vec::new(), &fallback), Some("text".as_bytes().to_vec()));
    assert_eq!(query_for_name(&Vec::new(), &None), None);

    let mut langs = Vec::new();
    push_language(&mut langs, "rust".as_bytes().to_vec(), Some(7));
    push_language(&mut langs, "zig".as_bytes().to_vec(), None);
    assert_eq!(langs.len(), 1);
    assert_eq!(language_for(&langs, &"rust".as_bytes().to_vec()), Some(7));
    assert_eq!(language_for(&langs, &"zig".as_bytes().to_vec()), None);
    assert!(bytes_eq(&"ab".as_bytes().to_vec(), &"ab".as_bytes().to_vec()));
    assert!(!bytes_eq(&"ab".as_bytes().to_vec(), &"ac".as_bytes().to_vec()));
}

#[test]
fn events_checker_accepts_real_streams_and_rejects_overlap() {
    let (source, events) = linked_paragraph();
    assert!(events_well_formed(&events, source.len()));
    // A text run outgrowing its range is rejected.
    let bad = vec![ev(0, 2, MdEvent::Text("toolong".as_bytes().to_vec()))];
    assert!(!events_well_formed(&bad, 10));
    // Overlapping text-bearing ranges are rejected.
    let bad = vec![
        ev(0, 5, MdEvent::Text("abcde".as_bytes().to_vec())),
        ev(3, 8, MdEvent::Text("fgh".as_bytes().to_vec())),
    ];
    assert!(!events_well_formed(&bad, 10));
    // A range past the source's end is rejected.
    let bad = vec![ev(0, 11, MdEvent::Start(MdTag::Paragraph))];
    assert!(!events_well_formed(&bad, 10));
}

#[test]
fn breaks_render_as_space_and_newline_and_unknown_tags_render_nothing() {
    let source = "a\nb  \nc *x*".as_bytes().to_vec();
    let events = vec![
        ev(0, 12, MdEvent::Start(MdTag::Paragraph)),
        ev(0, 1, MdEvent::Text("a".as_bytes().to_vec())),
        ev(1, 2, MdEvent::SoftBreak),
        ev(2, 3, MdEvent::Text("b".as_bytes().to_vec())),
        ev(3, 6, MdEvent::HardBreak),
        ev(6, 7, MdEvent::Text("c".as_bytes().to_vec())),
        // An unsupported construct in the middle contributes nothing.
        ev(8, 11, MdEvent::Start(MdTag::Other)),
        ev(8, 11, MdEvent::End(MdTagEnd::Other)),
        ev(0, 12, MdEvent::End(MdTagEnd::Paragraph)),
    ];
    let rendered = build_render_tree(
        &events,
        &source,
        &Vec::new(),
        &no_highlights(9),
        &MarkdownStyle::default(),
        true,
    );
    assert_eq!(rendered.text.lines.len(), 1);
    assert_eq!(rendered.text.lines[0].text, "a b\nc".as_bytes().to_vec());
}
