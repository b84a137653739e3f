use bettertui_engine::glyph::{GlyphId, GlyphMetrics, MetricsCache};

#[test]
fn metrics_new() {
    let m = GlyphMetrics::new(GlyphId(65));
    assert_eq!(m.glyph_id, GlyphId(65));
    assert_eq!(m.width, 0);
    assert_eq!(m.access_count, 0);
}

#[test]
fn metrics_with_dimensions() {
    let m = GlyphMetrics::new(GlyphId(65)).with_dimensions(8, 16).with_bearing(0, 12).with_advance(8, 0).with_bitmap(0, 128);
    assert_eq!(m.width, 8);
    assert_eq!(m.height, 16);
    assert_eq!(m.bitmap_size, 128);
}

#[test]
fn metrics_touch() {
    let mut m = GlyphMetrics::new(GlyphId(65));
    assert_eq!(m.access_count, 0);
    m.touch();
    assert_eq!(m.access_count, 1);
    m.touch();
    assert_eq!(m.access_count, 2);
}

#[test]
fn metrics_bytes_used() {
    let m = GlyphMetrics::new(GlyphId(65)).with_bitmap(0, 128);
    assert!(m.bytes_used() >= 128);
}

#[test]
fn cache_insert_and_get() {
    let mut cache = MetricsCache::new(1024 * 1024);
    let m = GlyphMetrics::new(GlyphId(65)).with_dimensions(8, 16);
    cache.insert(m);
    assert!(cache.contains(&GlyphId(65)));
    assert_eq!(cache.len(), 1);
}

#[test]
fn cache_remove() {
    let mut cache = MetricsCache::new(1024 * 1024);
    let m = GlyphMetrics::new(GlyphId(65));
    cache.insert(m);
    assert!(cache.remove(&GlyphId(65)).is_some());
    assert!(!cache.contains(&GlyphId(65)));
    assert_eq!(cache.len(), 0);
}

#[test]
fn cache_evict_lru() {
    let mut cache = MetricsCache::new(1024);
    for i in 0..100 {
        let m = GlyphMetrics::new(GlyphId(i)).with_bitmap(0, 16);
        cache.insert(m);
    }
    let evicted = cache.evict_lru(512);
    assert!(evicted > 0);
    assert!(cache.total_bytes() <= 512);
}

#[test]
fn cache_stats() {
    let mut cache = MetricsCache::new(1024);
    let m = GlyphMetrics::new(GlyphId(65)).with_bitmap(0, 128);
    cache.insert(m);
    let stats = cache.stats();
    assert_eq!(stats.total_glyphs, 1);
    assert!(stats.total_bytes >= 128);
}

#[test]
fn cache_clear() {
    let mut cache = MetricsCache::new(1024);
    for i in 0..10 {
        let m = GlyphMetrics::new(GlyphId(i));
        cache.insert(m);
    }
    cache.clear();
    assert_eq!(cache.len(), 0);
    assert_eq!(cache.total_bytes(), 0);
}

#[test]
fn cache_get_counts_access() {
    let mut cache = MetricsCache::new(1024);
    cache.insert(GlyphMetrics::new(GlyphId(7)).with_dimensions(3, 4));
    let m = cache.get(&GlyphId(7)).copied().unwrap();
    assert_eq!(m.access_count, 1);
    assert_eq!(m.width, 3);
    assert!(cache.get(&GlyphId(8)).is_none());
    assert_eq!(cache.get(&GlyphId(7)).unwrap().access_count, 2);
}

#[test]
fn cache_insert_replaces_but_keeps_bytes_counted() {
    let mut cache = MetricsCache::new(1024);
    let one = GlyphMetrics::new(GlyphId(1)).with_bitmap(0, 10);
    let bytes = one.bytes_used();
    cache.insert(one);
    cache.insert(GlyphMetrics::new(GlyphId(1)).with_bitmap(0, 10));
    assert_eq!(cache.len(), 1);
    assert_eq!(cache.total_bytes(), 2 * bytes);
    cache.remove(&GlyphId(1));
    assert_eq!(cache.total_bytes(), bytes);
}

#[test]
fn cache_evict_lru_takes_oldest_first() {
    let mut cache = MetricsCache::new(4096);
    let mut a = GlyphMetrics::new(GlyphId(1));
    let mut b = GlyphMetrics::new(GlyphId(2));
    let mut c = GlyphMetrics::new(GlyphId(3));
    a.last_accessed = 30;
    b.last_accessed = 10;
    c.last_accessed = 20;
    let each = a.bytes_used();
    cache.insert(a);
    cache.insert(b);
    cache.insert(c);
    let evicted = cache.evict_lru(2 * each);
    assert_eq!(evicted, 1);
    assert!(!cache.contains(&GlyphId(2)));
    assert!(cache.contains(&GlyphId(1)) && cache.contains(&GlyphId(3)));
    assert_eq!(cache.evict_lru(0), 2);
    assert!(cache.is_empty());
}

#[test]
fn stats_to_string_format() {
    let mut cache = MetricsCache::new(1000);
    let mut m = GlyphMetrics::new(GlyphId(1));
    m.access_count = 5;
    let bytes = m.bytes_used();
    cache.insert(m);
    let stats = cache.stats();
    assert_eq!(stats.total_accesses, 5);
    assert_eq!(stats.to_string(), format!("Glyphs: 1, Memory: {}/1000 bytes, Accesses: 5", bytes));
}
