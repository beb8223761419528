use oxide_engine_core::atlas::{GlyphAtlas, TEXT_ATLAS_PADDING};
use oxide_engine_core::chars::{
    chars_equal, is_whitespace_char, str_equal, to_ascii_lower, to_ascii_upper, trimmed_ascii_lower,
};
use oxide_engine_core::fonts::{
    glyph_bitmap, normalize_builtin_glyph, GameFontError, GameFontId, GameFonts, TextHorizontalAlign,
    TextVerticalAlign, BUILTIN_GAME_FONT,
};
use oxide_engine_core::ui::{DevOverlay, GameUiAnchor, RuntimeUi, UiElement};

#[test]
fn lower_case_normalizes_to_uppercase() {
    assert_eq!(normalize_builtin_glyph('a'), 'A');
    assert_eq!(normalize_builtin_glyph('z'), 'Z');
}

#[test]
fn unsupported_glyphs_become_question_marks() {
    assert_eq!(normalize_builtin_glyph('é'), '?');
    assert_eq!(normalize_builtin_glyph('\n'), '?');
    assert_eq!(normalize_builtin_glyph('~'), '~');
    assert_eq!(normalize_builtin_glyph(' '), ' ');
}

#[test]
fn glyph_bitmaps_follow_the_builtin_font() {
    assert_eq!(glyph_bitmap(' '), [0; 7]);
    assert_eq!(glyph_bitmap('!'), [4, 4, 4, 4, 4, 0, 4]);
    assert_eq!(glyph_bitmap('a'), glyph_bitmap('A'));
    assert_eq!(glyph_bitmap('\u{263a}'), glyph_bitmap('?'));
    assert_ne!(glyph_bitmap('A'), [0; 7]);
}

#[test]
fn game_fonts_can_alias_builtin_font() {
    let mut fonts = GameFonts::default();
    let id = fonts.alias_builtin(GameFontId::new("menu"));
    assert!(fonts.contains(&id));
}

#[test]
fn game_fonts_always_hold_the_builtin_font() {
    let fonts = GameFonts::new();
    assert!(fonts.contains(&GameFontId::builtin()));
    assert_eq!(GameFontId::builtin().as_str(), BUILTIN_GAME_FONT);
    assert_eq!(GameFontId::default().as_str(), "oxide:builtin");
    assert!(!fonts.contains(&GameFontId::new("title")));
    // unknown ids resolve to the builtin font
    assert_eq!(fonts.resolve(&GameFontId::new("title")).id().as_str(), "oxide:builtin");
}

#[test]
fn invalid_truetype_bytes_are_rejected() {
    let mut fonts = GameFonts::new();
    match fonts.register_truetype_bytes(GameFontId::new("broken"), vec![0, 1, 2, 3]) {
        Err(GameFontError::InvalidFont { id }) => assert_eq!(id, "broken"),
        Ok(_) => panic!("garbage bytes must not parse as a font"),
    }
    assert!(!fonts.contains(&GameFontId::new("broken")));
}

#[test]
fn alias_resolves_to_itself() {
    let mut fonts = GameFonts::new();
    let id = fonts.alias_builtin(GameFontId::new("hud"));
    assert_eq!(id.as_str(), "hud");
    assert_eq!(fonts.resolve(&id).id().as_str(), "hud");
}

#[test]
fn text_alignment_enums_are_distinct() {
    assert_ne!(TextHorizontalAlign::Left, TextHorizontalAlign::Right);
    assert_ne!(TextVerticalAlign::Top, TextVerticalAlign::Bottom);
}

#[test]
fn runtime_ui_keeps_elements_in_order() {
    let mut ui = RuntimeUi::new();
    ui.label("title", "Oxide");
    ui.separator();
    ui.button("start", "Start");
    let elements = ui.elements();
    assert_eq!(elements.len(), 3);
    match &elements[0] {
        UiElement::Label { id, text } => {
            assert_eq!(id, "title");
            assert_eq!(text, "Oxide");
        }
        other => panic!("unexpected {other:?}"),
    }
    assert!(matches!(elements[1], UiElement::Separator));
    match &elements[2] {
        UiElement::Button { id, text } => {
            assert_eq!(id, "start");
            assert_eq!(text, "Start");
        }
        other => panic!("unexpected {other:?}"),
    }
    ui.clear();
    assert!(ui.elements().is_empty());
}

#[test]
fn runtime_ui_reports_clicks_until_cleared() {
    let mut ui = RuntimeUi::default();
    ui.button("start", "Start");
    assert!(!ui.clicked("start"));
    ui.record_click("start");
    assert!(ui.clicked("start"));
    assert!(!ui.clicked("quit"));
    ui.clear_clicks();
    assert!(!ui.clicked("start"));
    assert_eq!(ui.elements().len(), 1);
    ui.record_click("quit");
    ui.clear();
    assert!(!ui.clicked("quit"));
}

#[test]
fn overlay_and_anchor_defaults() {
    assert!(DevOverlay::default().visible);
    assert_ne!(GameUiAnchor::TopLeft, GameUiAnchor::Center);
}

#[test]
fn character_helpers() {
    assert!(is_whitespace_char(' '));
    assert!(is_whitespace_char('\u{3000}'));
    assert!(!is_whitespace_char('x'));
    assert_eq!(to_ascii_lower('Q'), 'q');
    assert_eq!(to_ascii_upper('q'), 'Q');
    assert_eq!(to_ascii_upper('1'), '1');
    assert_eq!(trimmed_ascii_lower("  Sky_Gradient\t"), "sky_gradient".chars().collect::<Vec<_>>());
    assert!(chars_equal(&vec!['a', 'b'], &['a', 'b']));
    assert!(!chars_equal(&vec!['a'], &['a', 'b']));
    assert!(str_equal("lit", "lit"));
    assert!(!str_equal("lit", "Lit"));
}

#[test]
fn atlas_packs_glyphs_on_shelves() {
    let mut atlas = GlyphAtlas::new(8, 8);
    assert_eq!(atlas.pixels().len(), 64);
    let glyph = [9u8; 6]; // 3 x 2
    assert_eq!(atlas.pack(3, 2, &glyph), Some((TEXT_ATLAS_PADDING, TEXT_ATLAS_PADDING)));
    // 1 + 4 = 5; 5 + 4 = 9 >= 8: the second glyph opens a new shelf below the first
    assert_eq!(atlas.pack(3, 2, &glyph), Some((1, 4)));
    let pixels = atlas.pixels();
    assert_eq!(pixels[1 * 8 + 1], 9);
    assert_eq!(pixels[2 * 8 + 3], 9);
    assert_eq!(pixels[1 * 8 + 4], 0);
    assert_eq!(pixels[4 * 8 + 1], 9);
    // no room for a third shelf
    assert_eq!(atlas.pack(3, 2, &glyph), None);
    assert_eq!(atlas.width(), 8);
    assert_eq!(atlas.height(), 8);
}

#[test]
fn atlas_rejects_empty_and_oversized_glyphs() {
    let mut atlas = GlyphAtlas::new(6, 6);
    assert_eq!(atlas.pack(0, 2, &[]), None);
    assert_eq!(atlas.pack(5, 1, &[1, 1, 1, 1, 1]), None);
    assert_eq!(atlas.pack(2, 2, &[1, 2, 3, 4]), Some((1, 1)));
    assert_eq!(atlas.pixels()[1 * 6 + 1], 1);
    assert_eq!(atlas.pixels()[2 * 6 + 2], 4);
    assert_eq!(atlas.pixels()[2 * 6 + 3], 0);
}

#[test]
fn atlas_opens_a_shelf_even_when_the_glyph_then_does_not_fit() {
    let mut fresh = GlyphAtlas::new(4, 4);
    assert_eq!(fresh.pack(1, 1, &[5]), Some((1, 1)));
    // a 2 x 2 glyph reaches the right edge from the padding cursor, so a new
    // shelf opens below; the glyph then does not fit, and the shelf stays
    let mut atlas = GlyphAtlas::new(4, 4);
    assert_eq!(atlas.pack(2, 2, &[1, 2, 3, 4]), None);
    assert_eq!(atlas.pack(1, 1, &[5]), None);
    // a glyph that touches the right edge starts a shelf below the padding row
    let mut wide = GlyphAtlas::new(6, 8);
    assert_eq!(wide.pack(4, 1, &[1, 1, 1, 1]), Some((1, 2)));
}

use oxide_engine_core::glyph_cache::{GlyphCache, GlyphCacheKey};

fn key(font: &str, ch: char, pixel_height: u32) -> GlyphCacheKey {
    GlyphCacheKey { font: GameFontId::new(font), ch, pixel_height }
}

#[test]
fn glyph_cache_returns_what_was_remembered() {
    let mut cache: GlyphCache<Option<(u32, u32, u32, u32)>> = GlyphCache::new();
    assert_eq!(cache.lookup(&key("ui", 'A', 16)), None);
    cache.remember(key("ui", 'A', 16), Some((1, 1, 5, 16)));
    cache.remember(key("ui", ' ', 16), None);
    assert_eq!(cache.lookup(&key("ui", 'A', 16)), Some(Some((1, 1, 5, 16))));
    assert_eq!(cache.lookup(&key("ui", ' ', 16)), Some(None));
    assert_eq!(cache.lookup(&key("ui", 'A', 17)), None);
    assert_eq!(cache.lookup(&key("title", 'A', 16)), None);
    cache.remember(key("ui", 'A', 16), Some((9, 9, 5, 16)));
    assert_eq!(cache.lookup(&key("ui", 'A', 16)), Some(Some((9, 9, 5, 16))));
    assert!(key("ui", 'A', 16).same_as(&key("ui", 'A', 16).duplicate()));
}
