use bettertui_engine::logger::filter::ModuleFilter;
use bettertui_engine::logger::Level;

#[test]
fn default_filter_allows_all() {
    let filter = ModuleFilter::default();

    assert!(filter.should_log("bettertui_engine::render"));
    assert!(filter.should_log("bettertui_engine::layout"));
    assert!(filter.should_log("some_other_crate"));
}

#[test]
fn include_filter() {
    let filter = ModuleFilter::new(Level::Info).include_module("bettertui_engine::render");

    assert!(filter.should_log("bettertui_engine::render"));
    assert!(filter.should_log("bettertui_engine::render::painter"));
    assert!(!filter.should_log("bettertui_engine::layout"));
}

#[test]
fn exclude_filter() {
    let filter = ModuleFilter::new(Level::Info).exclude("bettertui_engine::render");

    assert!(!filter.should_log("bettertui_engine::render"));
    assert!(!filter.should_log("bettertui_engine::render::painter"));
    assert!(filter.should_log("bettertui_engine::layout"));
}

#[test]
fn exclude_takes_precedence() {
    let filter = ModuleFilter::new(Level::Info).include_module("bettertui_engine").exclude("bettertui_engine::render");

    assert!(!filter.should_log("bettertui_engine::render"));
    assert!(!filter.should_log("bettertui_engine::render::painter"));
    assert!(filter.should_log("bettertui_engine::layout"));
}

#[test]
fn multiple_includes() {
    let filter =
        ModuleFilter::new(Level::Info).include_many(vec!["bettertui_engine::render", "bettertui_engine::layout"]);

    assert!(filter.should_log("bettertui_engine::render"));
    assert!(filter.should_log("bettertui_engine::layout"));
    assert!(!filter.should_log("bettertui_engine::event"));
}

#[test]
fn multiple_excludes() {
    let filter =
        ModuleFilter::new(Level::Info).exclude_many(vec!["bettertui_engine::render", "bettertui_engine::layout"]);

    assert!(!filter.should_log("bettertui_engine::render"));
    assert!(!filter.should_log("bettertui_engine::layout"));
    assert!(filter.should_log("bettertui_engine::event"));
}

#[test]
fn prefix_matching() {
    let filter = ModuleFilter::new(Level::Info).include_module("bettertui_engine::render");

    assert!(filter.should_log("bettertui_engine::render"));
    assert!(filter.should_log("bettertui_engine::render::painter"));
    assert!(filter.should_log("bettertui_engine::render::painter::core"));
    // "bettertui_engine::renderer" starts with "bettertui_engine::render" so it matches
    // This is expected behavior for prefix matching
    assert!(filter.should_log("bettertui_engine::renderer"));
}

#[test]
fn default_level() {
    let filter = ModuleFilter::new(Level::Warn);
    assert_eq!(filter.default_level(), Level::Warn);

    let filter = filter.with_default_level(Level::Debug);
    assert_eq!(filter.default_level(), Level::Debug);
}

#[test]
fn exclude_many_then_allow_list() {
    let filter = ModuleFilter::default()
        .include_many(vec!["app"])
        .exclude_many(vec!["app::noisy", "lib"]);
    assert!(filter.should_log("app::core"));
    assert!(!filter.should_log("app::noisy::inner"));
    assert!(!filter.should_log("other"));
    assert_eq!(filter.default_level(), Level::Info);
}
