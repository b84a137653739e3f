use bettertui_engine::nerdfont::{
    nerd_font_names, ErrorCode, GlyphCategory, GlyphMetrics, LocalFont, LocalFontDetector, MetricsCache, NerdFont,
    NerdFontDetector, NerdFontGlyph, NerdFontVariant, WarningCode,
};

#[test]
fn detector_new() {
    let detector = NerdFontDetector::new();
    assert!(detector.available_fonts().is_empty());
    assert!(detector.local_detector().has_bundled_font());
}

#[test]
fn detector_create_font() {
    let detector = NerdFontDetector::new();
    let font = detector.create_font("TestFont");
    assert_eq!(font.name, "TestFont");
    assert!(font.glyph_count() > 0);
}

#[test]
fn detector_has_font() {
    let mut detector = NerdFontDetector::new();
    let font = detector.create_font("TestFont");
    detector.insert_font("TestFont".to_string(), font);
    assert!(detector.has_font("TestFont"));
    assert!(!detector.has_font("OtherFont"));
}

#[test]
fn detector_has_local_font() {
    let detector = NerdFontDetector::new();
    assert!(detector.has_local_font("DroidSans"));
    assert!(!detector.has_local_font("NonExistentFont"));
}

#[test]
fn detector_font_count() {
    let mut detector = NerdFontDetector::new();
    let font = detector.create_font("TestFont");
    detector.insert_font("TestFont".to_string(), font);
    assert_eq!(detector.font_count(), 1);
}

#[test]
fn detector_detect_records_available() {
    let mut detector = NerdFontDetector::new();
    let names = nerd_font_names();
    assert_eq!(names.len(), 56);
    let installed: Vec<bool> = names.iter().map(|n| *n == "HackNerdFont").collect();
    let found = vec![LocalFont::new("/fonts/FiraCodeNerdFont-Regular.ttf".to_string())];
    let available = detector.detect(found, &names, &installed);
    // Hack is installed; FiraCodeNerdFont is held by a local font's name.
    assert_eq!(available, vec!["FiraCodeNerdFont".to_string(), "HackNerdFont".to_string()]);
    assert_eq!(detector.font_count(), 2);
    assert_eq!(detector.local_fonts().len(), 1);
    let hack = detector.get_font("HackNerdFont").unwrap();
    assert_eq!(hack.glyph_count(), 100);
}

#[test]
fn created_font_glyphs() {
    let detector = NerdFontDetector::new();
    let font = detector.create_font("X");
    assert_eq!(font.glyphs[0].codepoint, 0xE0A0);
    assert_eq!(font.glyphs[6].codepoint, 0xE0B3);
    assert_eq!(font.glyphs[7].codepoint, 0xE700);
    assert_eq!(font.glyphs[7].name, "devicon-file-type-js");
    assert_eq!(font.glyphs[99].codepoint, 0xE75C);
    assert_eq!(font.glyphs_by_category(GlyphCategory::Powerline).len(), 7);
    assert_eq!(font.categories(), vec![GlyphCategory::Devicons, GlyphCategory::Powerline]);
    assert!(font.has_glyph(0xE706));
    assert_eq!(font.get_glyph(0xE706).unwrap().name, "devicon-file-type-rust");
    assert!(font.validate().is_valid());
}

#[test]
fn font_builders() {
    let f = NerdFont::new("A").with_family("B").with_variant(NerdFontVariant::Mono).with_monospace(false);
    assert_eq!(f.family, "B");
    assert_eq!(f.variant.as_str(), "Mono");
    assert!(!f.is_monospace);
    let g = NerdFontGlyph::new(0xE0B0, "tri", GlyphCategory::Powerline).with_width(2);
    assert!(g.is_wide() && g.is_powerline() && !g.is_devicon());
}

#[test]
fn categories_sorted_by_name() {
    let glyphs = vec![
        NerdFontGlyph::new(1, "a", GlyphCategory::Weather),
        NerdFontGlyph::new(2, "b", GlyphCategory::Powerline),
        NerdFontGlyph::new(3, "c", GlyphCategory::PowerSymbols),
        NerdFontGlyph::new(4, "d", GlyphCategory::Clock),
        NerdFontGlyph::new(5, "e", GlyphCategory::Powerline),
    ];
    let f = NerdFont::new("F").with_glyphs(glyphs);
    assert_eq!(
        f.categories(),
        vec![GlyphCategory::Clock, GlyphCategory::PowerSymbols, GlyphCategory::Powerline, GlyphCategory::Weather]
    );
}

#[test]
fn validate_reports_errors_and_warnings() {
    let glyphs = vec![
        NerdFontGlyph::new(0xE0A0, "ok", GlyphCategory::Powerline),
        NerdFontGlyph::new(0xE0A0, "", GlyphCategory::Powerline),
        NerdFontGlyph::new(0xD800, "surrogate", GlyphCategory::Custom),
        NerdFontGlyph::new(0x41, "zero", GlyphCategory::Custom).with_width(0),
        NerdFontGlyph::new(0x1F600, "wide", GlyphCategory::Custom).with_width(3),
    ];
    let r = NerdFont::new("F").with_glyphs(glyphs).validate();
    assert!(!r.is_valid());
    assert_eq!(r.error_count(), 3);
    assert_eq!(r.errors[0].code, ErrorCode::DuplicateCodepoint);
    assert_eq!(r.errors[0].message, "Duplicate codepoint: U+E0A0");
    assert_eq!(r.errors[1].message, "Invalid codepoint: U+D800");
    assert_eq!(r.errors[2].code, ErrorCode::InvalidWidth);
    assert_eq!(r.errors[2].message, "Zero width glyph: U+0041");
    assert_eq!(r.warning_count(), 2);
    assert_eq!(r.warnings[0].code, WarningCode::MissingName);
    assert_eq!(r.warnings[0].message, "Missing name for glyph: U+E0A0");
    assert_eq!(r.warnings[1].message, "Unusual width 3 for glyph: U+1F600");
    assert_eq!(r.glyph_count, 5);
    assert_eq!(r.valid_glyphs, 3);
}

#[test]
fn local_fonts_and_detector() {
    let f = LocalFont::new("/usr/share/fonts/HackNerdFont-Bold.ttf".to_string());
    assert_eq!(f.name, "HackNerdFont-Bold");
    assert_eq!(f.family, "HackNerdFont-Bold");
    assert!(!f.is_bundled);
    assert_eq!(LocalFont::new("/".to_string()).name, "Unknown");
    let b = LocalFont::bundled();
    assert!(b.is_bundled);
    assert_eq!(b.family, "Droid Sans Mono");
    let mut d = LocalFontDetector::with_search_paths(vec!["/x".to_string()]);
    assert_eq!(d.search_paths().unwrap().len(), 1);
    assert!(LocalFontDetector::new().search_paths().is_none());
    assert!(d.any_font_available());
    assert!(d.best_font().is_bundled);
    let found = d.detect(vec![f.clone()]);
    assert_eq!(found.len(), 1);
    assert_eq!(d.find_font("Hack").unwrap().name, "HackNerdFont-Bold");
    assert!(d.find_font("Droid").unwrap().is_bundled);
    assert!(d.find_font("Missing").is_none());
    assert!(LocalFontDetector::is_font_file("TTF", "FooNerdFont"));
    assert!(LocalFontDetector::is_font_file("woff2", "foo-nerd-font"));
    assert!(!LocalFontDetector::is_font_file("txt", "FooNerdFont"));
    assert!(!LocalFontDetector::is_font_file("otf", "Foo"));
}

#[test]
fn metrics_cache_measures_cells() {
    let mut cache = MetricsCache::new(8, 16);
    let g = NerdFontGlyph::new(0xE0A0, "b", GlyphCategory::Powerline).with_width(2);
    let m = *cache.get_or_create(0xE0A0, &g);
    assert_eq!((m.width, m.height, m.advance_x, m.advance_y), (16, 16, 2, 1));
    assert!(m.is_wide());
    assert_eq!(m.cell_width(8), 8);
    assert!(cache.contains(0xE0A0));
    cache.insert(0xE0A0, GlyphMetrics::new().with_advance(5, 1).with_monospace(false));
    assert_eq!(cache.get(0xE0A0).unwrap().cell_width(8), 5);
    assert_eq!(cache.len(), 1);
    let font = NerdFontDetector::new().create_font("F");
    cache.set_cell_size(10, 20);
    cache.measure_all(&font);
    assert_eq!(cache.len(), 100);
    assert_eq!(cache.get(0xE700).unwrap().width, 10);
    assert!(cache.total_memory() > 0);
    cache.clear();
    assert!(cache.is_empty());
    assert_eq!((cache.cell_width(), cache.cell_height()), (10, 20));
}
