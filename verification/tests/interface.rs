use std::cell::Cell as Counter;
use std::rc::Rc;
use vintage::markdown::{blocks_from_events, MdEnd, MdEvent, MdTag};
use vintage::mouse::{Encoding, Tracking};
use vintage::settings::Appearance;
use vintage::terminal::{
    cell_colors, mouse_mode, palette, rgb_parts, screen_text, selection_point, truncate_title,
    underline_kind, visible_cursor, Cell, CellFlags, CursorStyle, UnderlineKind,
};
use vintage::runs::{group_cells, DrawnCell, RunStyle};
use vintage::text_cache::{StyleKey, TextCache};
use vintage::ui::{is_drawn, is_web_link, Palette};
use vintage::TerminalSize;

fn style() -> StyleKey {
    StyleKey {
        foreground: 0xe6e1d8,
        bold: false,
        italic: false,
        underline: false,
        strikeout: false,
    }
}

fn bits(x: f32) -> u32 {
    x.to_bits()
}

#[test]
fn unchanged_screen_avoids_repeated_layout_calls() {
    let calls = Counter::new(0);
    let mut cache = TextCache::default();
    for _ in 0..10 {
        cache.begin_frame(bits(12.), bits(1.));
        for _ in 0..80 {
            cache.layout("row", style(), || calls.set(calls.get() + 1));
        }
        cache.end_frame();
    }
    assert_eq!(calls.get(), 80); // One screen, not ten screens.
}

#[test]
fn a_frame_shapes_only_the_slots_that_changed() {
    let calls = Counter::new(0);
    let mut cache = TextCache::default();
    let rows = ["a", "b", "c", "d"];
    cache.begin_frame(bits(12.), bits(1.));
    for row in rows {
        cache.layout(row, style(), || calls.set(calls.get() + 1));
    }
    cache.end_frame();
    assert_eq!(calls.get(), 4);
    cache.begin_frame(bits(12.), bits(1.));
    for row in ["a", "x", "c", "d", "e"] {
        cache.layout(row, style(), || calls.set(calls.get() + 1));
    }
    cache.end_frame();
    assert_eq!(calls.get(), 6);
    assert_eq!(cache.len(), 5);
    cache.begin_frame(bits(12.), bits(1.));
    for row in ["a", "x"] {
        cache.layout(row, style(), || calls.set(calls.get() + 1));
    }
    cache.end_frame();
    assert_eq!(calls.get(), 6);
    assert_eq!(cache.len(), 2);
}

#[test]
fn positions_and_unrelated_cells_do_not_invalidate_layout() {
    let mut cache = TextCache::default();
    cache.begin_frame(bits(12.), bits(1.));
    cache.layout("first", style(), || 7);
    cache.layout("second", style(), || 8);
    cache.end_frame();
    cache.begin_frame(bits(12.), bits(1.));
    // Layout order stays positional: the same text in the same slot hits.
    assert_eq!(
        cache.layout("first", style(), || panic!("unnecessary layout")),
        7
    );
    assert_eq!(
        cache.layout("second", style(), || panic!("unnecessary layout")),
        8
    );
    cache.end_frame();
}

#[test]
fn text_and_each_style_change_invalidates_layout() {
    let mut variants = vec![style(); 5];
    variants[0].foreground ^= 1;
    variants[1].bold = true;
    variants[2].italic = true;
    variants[3].underline = true;
    variants[4].strikeout = true;
    for changed in variants {
        let mut cache = TextCache::default();
        cache.begin_frame(bits(12.), bits(1.));
        cache.layout("text", style(), || 1);
        cache.end_frame();
        cache.begin_frame(bits(12.), bits(1.));
        assert_eq!(cache.layout("text", changed, || 2), 2);
        cache.end_frame();
    }
    let mut cache = TextCache::default();
    cache.begin_frame(bits(12.), bits(1.));
    cache.layout("text", style(), || 1);
    cache.end_frame();
    cache.begin_frame(bits(12.), bits(1.));
    assert_eq!(cache.layout("other", style(), || 3), 3);
    cache.end_frame();
}

#[test]
fn font_size_scale_and_removed_runs_release_old_layouts() {
    let mut cache = TextCache::default();
    let layout = Rc::new(());
    for metrics in [(12., 1.), (14., 1.), (14., 2.)] {
        cache.begin_frame(bits(metrics.0), bits(metrics.1));
        assert_eq!(Rc::strong_count(&layout), 1);
        cache.layout("text", style(), || layout.clone());
        cache.end_frame();
        assert_eq!(Rc::strong_count(&layout), 2);
    }
    cache.begin_frame(bits(14.), bits(2.));
    cache.end_frame();
    assert_eq!(Rc::strong_count(&layout), 1);
    assert_eq!(cache.len(), 0);
}

#[test]
fn box_graphics_and_web_links_are_recognized() {
    assert!(is_drawn('─'));
    assert!(is_drawn('\u{E0B2}'));
    assert!(!is_drawn('a'));
    assert!(!is_drawn('\u{E0B4}'));
    assert!(is_web_link("https://example.net"));
    assert!(is_web_link("http://x"));
    assert!(!is_web_link("mailto:x@y.z"));
    assert!(!is_web_link("docs/a.md"));
}

#[test]
fn palettes_follow_the_appearance() {
    let light = Palette::new(Appearance::System, true, false);
    assert_eq!(light.color(0x191816), 0xfaf8f4);
    assert_eq!(light.color(0x123456), 0x123456);
    let graphite = Palette::new(Appearance::Graphite, true, true);
    assert_eq!(graphite.color(0x777165), 0x858585);
    assert!(graphite.stacked());
    let dark = Palette::new(Appearance::System, false, false);
    assert_eq!(dark.color(0x191816), 0x191816);
}

#[test]
fn palette_entries_and_cell_colors() {
    assert_eq!(palette(1, None), 0xff7e68);
    assert_eq!(palette(1, Some(0x010203)), 0x010203);
    assert_eq!(palette(16, None), 0x000000);
    assert_eq!(palette(231, None), 0xffffff);
    assert_eq!(palette(232, None), 0x080808);
    assert_eq!(palette(255, None), 0xeeeeee);
    assert_eq!(palette(257, None), 0x191816);
    assert_eq!(palette(259, None), (0x24211d & 0xfefefe) >> 1);
    assert_eq!(palette(300, Some(1)), 0xe6e1d8);
    assert_eq!(rgb_parts(0x123456), (0x12, 0x34, 0x56));
    let flags = CellFlags {
        inverse: true,
        dim: true,
        ..Default::default()
    };
    assert_eq!(cell_colors(0xffffff, 0x020202, &flags), (0x010101, 0xffffff));
    let flags = CellFlags {
        undercurl: true,
        dotted_underline: true,
        ..Default::default()
    };
    assert_eq!(underline_kind(&flags), Some(UnderlineKind::Curly));
    assert_eq!(underline_kind(&CellFlags::default()), None);
}

#[test]
fn titles_cursors_modes_and_selection_points() {
    assert_eq!(truncate_title("x".repeat(250)).len(), 200);
    assert_eq!(truncate_title("日".repeat(3)), "日日日");
    let mode = mouse_mode(false, true, true, false, true);
    assert_eq!(mode.tracking, Tracking::Drag);
    assert_eq!(mode.encoding, Encoding::Utf8);
    assert!(visible_cursor(true, 0, 0, 0, 24, CursorStyle::Beam).is_none());
    assert!(visible_cursor(false, 0, 24, 0, 24, CursorStyle::Beam).is_none());
    let cursor = visible_cursor(false, 3, -2, 5, 24, CursorStyle::Beam).unwrap();
    assert_eq!((cursor.column, cursor.row), (3, 3));
    let size = TerminalSize::new(80, 24).unwrap();
    assert_eq!(selection_point((100, 100), size, 3), (20, 79));
    assert_eq!(selection_point((1, 2), size, 0), (2, 1));
    assert_eq!(screen_text(&vec!["a  ".into(), " b\t".into()]), "a\n b");
}

#[test]
fn event_streams_build_blocks() {
    let events = vec![
        MdEvent::Start(MdTag::Paragraph),
        MdEvent::Text("a".into()),
        MdEvent::SoftBreak,
        MdEvent::Text("b".into()),
        MdEvent::End(MdEnd::Paragraph),
        MdEvent::Rule,
    ];
    let (blocks, cut) = blocks_from_events(&events);
    assert!(!cut);
    assert_eq!(blocks.len(), 2);
    match &blocks[0] {
        vintage::document::Block::Paragraph { inlines } => {
            assert_eq!(inlines.len(), 1);
            match &inlines[0] {
                vintage::document::Inline::Text(span) => assert_eq!(span.text, "a b"),
                _ => panic!("text expected"),
            }
        }
        _ => panic!("paragraph expected"),
    }
}

fn cell(text: &str, row: usize, column: usize, width: usize, bold: bool, underline: Option<UnderlineKind>) -> Cell {
    Cell {
        text: text.to_string(),
        column,
        row,
        width,
        foreground: 7,
        background: 0,
        bold,
        italic: false,
        underline,
        strikeout: false,
        selected: false,
    }
}

#[test]
fn cells_group_into_runs_of_one_style_per_row() {
    let cells = vec![
        cell("a", 0, 0, 1, false, None),
        cell("b", 0, 1, 1, false, None),
        cell(" ", 0, 2, 1, false, None),
        cell("\u{2502}", 0, 3, 1, false, None),
        cell("\u{4e2d}", 0, 4, 2, false, None),
        cell("c", 0, 6, 1, true, None),
        cell(" ", 0, 7, 1, false, Some(UnderlineKind::Single)),
        cell(" ", 0, 8, 1, false, None),
        cell("d", 1, 0, 1, false, None),
        cell("e", 1, 1, 1, false, None),
        cell("f", 1, 3, 1, false, None),
    ];
    let (runs, drawn) = group_cells(&cells);
    let plain = RunStyle { foreground: 7, bold: false, italic: false, underline: None, strikeout: false };
    let bold = RunStyle { bold: true, ..plain };
    let underlined = RunStyle { underline: Some(UnderlineKind::Single), ..plain };
    let got: Vec<_> = runs.iter().map(|r| (r.row, r.column, r.cells, r.text.clone(), r.style, r.forced)).collect();
    assert_eq!(
        got,
        vec![
            (0, 0, 3, "ab ".to_string(), plain, true),
            (0, 4, 1, "\u{4e2d}".to_string(), plain, false),
            (0, 6, 1, "c".to_string(), bold, true),
            (0, 7, 1, " ".to_string(), underlined, true),
            (1, 0, 2, "de".to_string(), plain, true),
            (1, 3, 1, "f".to_string(), plain, true),
        ]
    );
    assert_eq!(drawn, vec![DrawnCell { ch: '\u{2502}', row: 0, column: 3, foreground: 7 }]);
    let (none, nothing) = group_cells(&Vec::new());
    assert!(none.is_empty() && nothing.is_empty());
}
