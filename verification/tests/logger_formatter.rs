use bettertui_engine::logger::colors;
use bettertui_engine::logger::formatter::ColoredFormatter;
use bettertui_engine::logger::Level;

#[test]
fn default_formatter() {
    let formatter = ColoredFormatter::default();
    assert!(formatter.use_color);
    assert!(formatter.show_timestamp);
    assert!(formatter.show_module);
    assert!(!formatter.show_thread);
}

#[test]
fn level_colors_with_color() {
    let formatter = ColoredFormatter::new();

    assert_eq!(formatter.level_color(Level::Trace), colors::BRIGHT_BLACK);
    assert_eq!(formatter.level_color(Level::Debug), colors::BLUE);
    assert_eq!(formatter.level_color(Level::Info), colors::GREEN);
    assert_eq!(formatter.level_color(Level::Warn), colors::YELLOW);
    assert_eq!(formatter.level_color(Level::Error), colors::RED);
}

#[test]
fn level_colors_without_color() {
    let formatter = ColoredFormatter::new().with_color(false);

    assert_eq!(formatter.level_color(Level::Info), "");
    assert_eq!(formatter.level_color(Level::Error), "");
}

#[test]
fn format_level_badge_with_color() {
    let formatter = ColoredFormatter::new();
    let badge = formatter.format_level_badge(Level::Info);

    assert!(badge.contains("INFO"));
    assert!(badge.contains(colors::GREEN));
    assert!(badge.contains(colors::RESET));
}

#[test]
fn format_level_badge_without_color() {
    let formatter = ColoredFormatter::new().with_color(false);
    let badge = formatter.format_level_badge(Level::Info);

    assert_eq!(badge, "INFO ");
}

#[test]
fn format_module_with_show() {
    let formatter = ColoredFormatter::new().with_module(true);
    let module = formatter.format_module("bettertui_engine::render");

    assert!(module.contains("bettertui_engine::render"));
    assert!(module.contains(colors::CYAN));
}

#[test]
fn format_module_without_show() {
    let formatter = ColoredFormatter::new().with_module(false);
    let module = formatter.format_module("bettertui_engine::render");

    assert_eq!(module, "");
}

#[test]
fn format_timestamp_with_show() {
    let formatter = ColoredFormatter::new().with_timestamp(true);
    let timestamp = formatter.format_timestamp("2024-01-01 12:00:00");

    assert!(timestamp.contains("2024-01-01 12:00:00"));
}

#[test]
fn format_timestamp_without_show() {
    let formatter = ColoredFormatter::new().with_timestamp(false);
    let timestamp = formatter.format_timestamp("2024-01-01 12:00:00");

    assert_eq!(timestamp, "");
}

#[test]
fn builder_pattern() {
    let formatter =
        ColoredFormatter::new().with_color(false).with_timestamp(false).with_module(false).with_thread(true);

    assert!(!formatter.use_color);
    assert!(!formatter.show_timestamp);
    assert!(!formatter.show_module);
    assert!(formatter.show_thread);
}

#[test]
fn thread_and_display() {
    let formatter = ColoredFormatter::new().with_thread(true);
    assert_eq!(formatter.format_thread("7"), format!("{}[7]{}", colors::BRIGHT_BLACK, colors::RESET));
    assert_eq!(ColoredFormatter::new().format_thread("7"), "");
    assert_eq!(formatter.thread_color(), colors::BRIGHT_BLACK);
    assert_eq!(formatter.timestamp_color(), colors::DIM);
    assert_eq!(formatter.with_color(false).reset(), "");
    assert_eq!(
        ColoredFormatter::default().to_string(),
        "ColoredFormatter { color: true, timestamp: true, module: true, thread: false }"
    );
    assert_eq!(
        ColoredFormatter::new().format_level_badge(Level::Error),
        format!("{}ERROR{}", colors::RED, colors::RESET)
    );
}
