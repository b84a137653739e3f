use bettertui_engine::glyph::{Glyph, GlyphCache, GlyphCategory, GlyphId, GlyphTables};

#[test]
fn category_from_char_ranges() {
    assert_eq!(GlyphCategory::from_char('a'), GlyphCategory::Ascii);
    assert_eq!(GlyphCategory::from_char('\u{e9}'), GlyphCategory::AsciiExtended);
    assert_eq!(GlyphCategory::from_char('\u{1F600}'), GlyphCategory::Emoji);
    assert_eq!(GlyphCategory::from_char('\u{2500}'), GlyphCategory::BoxDrawing);
    assert_eq!(GlyphCategory::from_char('\u{2800}'), GlyphCategory::Braille);
    assert_eq!(GlyphCategory::from_char('\u{4E2D}'), GlyphCategory::Cjk);
    assert_eq!(GlyphCategory::from_char('\u{0301}'), GlyphCategory::Diacritical);
    assert_eq!(GlyphCategory::from_char('\u{E0B0}'), GlyphCategory::NerdFont);
    assert_eq!(GlyphCategory::from_char('\u{2192}'), GlyphCategory::Symbol);
    assert_eq!(GlyphCategory::from_char('\u{0416}'), GlyphCategory::Unicode);
    // Dingbats are emoji before they are symbols.
    assert_eq!(GlyphCategory::from_char('\u{2764}'), GlyphCategory::Emoji);
}

#[test]
fn category_width_and_name() {
    assert_eq!(GlyphCategory::Cjk.width_hint(), 2);
    assert_eq!(GlyphCategory::Emoji.width_hint(), 2);
    assert_eq!(GlyphCategory::Ascii.width_hint(), 1);
    assert_eq!(GlyphCategory::BoxDrawing.as_str(), "box_drawing");
    assert_eq!(GlyphCategory::NerdFont.as_str(), "nerd_font");
}

#[test]
fn glyph_new_and_builders() {
    let g = Glyph::new('x');
    assert_eq!(g.id, GlyphId('x' as u32));
    assert_eq!(g.width, 1);
    assert_eq!(g.category, GlyphCategory::Ascii);
    let g = g.with_width(2).with_height(3).with_advance_x(4).with_offset(-1, 2).with_category(GlyphCategory::Cjk);
    assert!(g.is_wide());
    assert!(g.is_cjk());
    assert_eq!((g.height, g.advance_x, g.offset_x, g.offset_y), (3, 4, -1, 2));
    assert_eq!(Glyph::from('\u{2800}'), Glyph::new('\u{2800}'));
    assert!(Glyph::new('\u{2800}').is_braille());
}

#[test]
fn tables_lookups() {
    let t = GlyphTables::new();
    assert_eq!(t.ascii_glyph('A').unwrap().ch, 'A');
    assert!(t.ascii_glyph('\u{e9}').is_none());
    assert_eq!(t.box_drawing_glyph('\u{2502}').unwrap().ch, '\u{2502}');
    assert!(t.box_drawing_glyph('\u{2580}').is_none());
    assert_eq!(t.braille_glyph('\u{28FF}').unwrap().category, GlyphCategory::Braille);
    assert!(t.get_glyph('\u{2580}').is_none());
    assert!(t.get_glyph('\u{4E2D}').is_none());
    assert_eq!(t.get_glyph('z').unwrap().ch, 'z');
    assert_eq!(t.common_emoji().len(), 8);
    assert!(t.common_emoji().iter().all(|g| g.is_emoji()));
}

#[test]
fn cache_get_or_insert_counts() {
    let mut cache = GlyphCache::new();
    assert!(cache.get('a').is_none());
    let g = *cache.get_or_insert('\u{4E2D}');
    assert_eq!(g.width, 2);
    assert_eq!(g.category, GlyphCategory::Cjk);
    assert_eq!(cache.get_or_insert('\u{4E2D}').ch, '\u{4E2D}');
    assert!(cache.get('\u{4E2D}').is_some());
    let s = *cache.stats();
    assert_eq!(s.lookups, 4);
    assert_eq!(s.hits, 2);
    assert_eq!(s.misses, 2);
    assert_eq!(s.insertions, 1);
    assert_eq!(cache.len(), 1);
    let m = cache.get_metrics('\u{4E2D}').unwrap();
    assert_eq!((m.width, m.height), (16, 16));
}

#[test]
fn cache_preload_and_categories() {
    let mut cache = GlyphCache::new();
    cache.preload_ascii();
    cache.preload_box_drawing();
    cache.preload_braille();
    assert_eq!(cache.len(), 128 + 128 + 256);
    assert!(cache.contains('~'));
    let stats = cache.category_stats();
    assert_eq!(
        stats,
        vec![(GlyphCategory::Ascii, 128), (GlyphCategory::BoxDrawing, 128), (GlyphCategory::Braille, 256)]
    );
    assert!(cache.memory_usage() > 0);
    cache.clear();
    assert!(cache.is_empty());
    assert_eq!(cache.stats().lookups, 0);
}

#[test]
fn cache_full_insert_evicts() {
    let mut cache = GlyphCache::with_config(2, 0);
    cache.get_or_insert('a');
    cache.get_or_insert('b');
    // Full: the budget share is zero bytes, so every metric and glyph goes first.
    cache.get_or_insert('c');
    assert_eq!(cache.len(), 1);
    assert!(cache.contains('c'));
    assert_eq!(cache.stats().evictions, 2);
}

#[test]
fn cache_evict_expired_keeps_fresh_glyphs() {
    let mut cache = GlyphCache::new();
    cache.get_or_insert('q');
    cache.evict_expired();
    assert!(cache.contains('q'));
}

#[test]
fn is_expired_rule() {
    assert!(GlyphCache::is_expired(100, 10, 50));
    assert!(!GlyphCache::is_expired(100, 50, 50));
    assert!(!GlyphCache::is_expired(10, 100, 0));
}

#[test]
fn cache_evict_expired_counts_an_access() {
    let mut cache = GlyphCache::new();
    cache.get_or_insert('q');
    let before = cache.get_metrics('q').unwrap().access_count;
    cache.evict_expired();
    let after = cache.get_metrics('q').unwrap().access_count;
    // `get_metrics` itself counts one access each time.
    assert_eq!(after, before + 2);
}

#[test]
fn cache_insert_at_limit_with_huge_budget() {
    let mut cache = GlyphCache::with_config(2, usize::MAX / 2);
    cache.insert(Glyph::new('a'));
    cache.insert(Glyph::new('b'));
    cache.insert(Glyph::new('c'));
    assert_eq!(cache.len(), 1);
    assert!(cache.contains('c'));
    assert!(!cache.contains('a'));
    assert_eq!(cache.stats().insertions, 3);
    assert_eq!(cache.stats().evictions, 2);
}
