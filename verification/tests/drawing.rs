use vintage::boxes::{box_lines, light_stroke, PixelRect};
use vintage::ui::is_drawn;

fn rect(x: i64, y: i64, width: i64, height: i64) -> PixelRect {
    PixelRect { x, y, width, height }
}

fn draw(code: u32) -> Vec<PixelRect> {
    let t = light_stroke(9);
    box_lines(code, 9, 20, t).unwrap_or_else(|| panic!("{code:x} should draw"))
}

#[test]
fn light_stroke_is_an_eighth_of_the_width() {
    assert_eq!(light_stroke(9), 1);
    assert_eq!(light_stroke(18), 2);
    assert_eq!(light_stroke(3), 1);
    assert_eq!(light_stroke(20), 3);
}

#[test]
fn straight_lines_span_their_axis() {
    assert_eq!(draw(0x2500), vec![rect(0, 10, 9, 1)]);
    assert_eq!(draw(0x2501), vec![rect(0, 9, 9, 2)]);
    assert_eq!(draw(0x2502), vec![rect(4, 0, 1, 20)]);
}

#[test]
fn doubled_cells_keep_the_stroke_centred() {
    let t = light_stroke(18);
    assert_eq!(box_lines(0x2500, 18, 40, t), Some(vec![rect(0, 19, 18, 2)]));
}

#[test]
fn junctions_meet_their_arms() {
    let g = draw(0x251C);
    assert!(g.iter().any(|r| r.x == 4 && r.height == 20));
    assert!(g.iter().any(|r| r.x + r.width == 9 && r.y <= 10 && r.y + r.height >= 10));
    let g = draw(0x254B);
    assert!(g.iter().any(|r| r.width == 2 && r.height == 20));
    assert!(g.iter().any(|r| r.width == 9 && r.height == 2));
}

#[test]
fn every_line_character_draws_inside_the_cell() {
    let codes = (0x2500u32..=0x254F).chain(0x2550..=0x256C).chain(0x2574..=0x257F);
    for code in codes {
        let rects = draw(code);
        assert!(!rects.is_empty(), "{code:x} drew nothing");
        for r in rects {
            assert!(r.width > 0 && r.height > 0, "{code:x} empty rect");
            assert!(r.x >= 0 && r.y >= 0, "{code:x} starts outside");
            assert!(r.x + r.width <= 9 && r.y + r.height <= 20, "{code:x} overflows");
        }
    }
}

#[test]
fn dashed_lines_break_into_dashes() {
    assert_eq!(draw(0x2504).len(), 3);
    assert_eq!(draw(0x2508).len(), 4);
    assert_eq!(draw(0x254E).len(), 2);
    assert!(draw(0x2505).iter().all(|r| r.height == 2));
}

#[test]
fn double_lines_have_two_strokes() {
    let g = draw(0x2550);
    assert_eq!(g, vec![rect(0, 9, 4, 1), rect(0, 12, 4, 1), rect(4, 9, 5, 1), rect(4, 12, 5, 1)]);
    let g = draw(0x2551);
    assert!(g.iter().all(|r| r.width == 1));
    assert!(g.iter().any(|r| r.x == 3) && g.iter().any(|r| r.x == 6));
}

#[test]
fn other_characters_are_left_to_the_font() {
    for code in [u32::from('a'), 0x2580, 0x2591, 0x256D, 0x2571, 0xE0B0] {
        assert_eq!(box_lines(code, 9, 20, 1), None, "{code:x} drew");
    }
}

#[test]
fn unsupported_characters_fall_back_to_the_font() {
    for ch in ['a', ' ', '日', '\u{2801}', '\u{1FB00}', '\u{E0B4}'] {
        assert!(!is_drawn(ch), "{ch} drew");
        assert_eq!(box_lines(u32::from(ch), 9, 20, light_stroke(9)), None, "{ch} drew");
    }
}
