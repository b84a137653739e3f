use std::collections::HashMap;

use bettertui_engine::plugin::{Capability, PluginHost, PluginInfo, PluginState, SlotMode, SlotRegistry};

fn test_info(name: &str) -> PluginInfo {
    PluginInfo {
        name: name.to_string(),
        version: "1.0".to_string(),
        author: "test".to_string(),
        capabilities: vec![Capability::Commands],
        metadata: HashMap::new(),
    }
}

#[test]
fn host_new_is_empty() {
    let host = PluginHost::new();
    assert!(host.is_empty());
    assert_eq!(host.len(), 0);
}

#[test]
fn host_register_plugin() {
    let mut host = PluginHost::new();
    host.register(test_info("my-plugin")).unwrap();
    assert_eq!(host.len(), 1);
    assert!(!host.is_empty());
}

#[test]
fn host_register_duplicate_fails() {
    let mut host = PluginHost::new();
    host.register(test_info("dup")).unwrap();
    let err = host.register(test_info("dup")).unwrap_err();
    assert!(err.contains("already registered"));
}

#[test]
fn host_unregister_plugin() {
    let mut host = PluginHost::new();
    host.register(test_info("p1")).unwrap();
    host.register(test_info("p2")).unwrap();
    host.unregister("p1").unwrap();
    assert_eq!(host.len(), 1);
    assert!(host.get("p1").is_none());
    assert!(host.get("p2").is_some());
}

#[test]
fn host_unregister_missing_fails() {
    let mut host = PluginHost::new();
    let err = host.unregister("nonexistent").unwrap_err();
    assert!(err.contains("not registered"));
}

#[test]
fn host_set_state() {
    let mut host = PluginHost::new();
    host.register(test_info("p")).unwrap();
    host.set_state("p", PluginState::Running).unwrap();
    assert_eq!(host.state("p"), Some(PluginState::Running));
}

#[test]
fn host_state_for_missing_returns_none() {
    let host = PluginHost::new();
    assert_eq!(host.state("nope"), None);
}

#[test]
fn host_get_plugin() {
    let mut host = PluginHost::new();
    host.register(test_info("p")).unwrap();
    let plugin = host.get("p").unwrap();
    assert_eq!(plugin.info.name, "p");
    assert_eq!(plugin.state, PluginState::Registered);
}

#[test]
fn host_get_missing_returns_none() {
    let host = PluginHost::new();
    assert!(host.get("nope").is_none());
}

#[test]
fn host_with_capability() {
    let mut host = PluginHost::new();
    let mut info = test_info("a");
    info.capabilities = vec![Capability::Commands];
    host.register(info).unwrap();
    let mut info2 = test_info("b");
    info2.capabilities = vec![Capability::Events];
    host.register(info2).unwrap();
    let cmd_plugins = host.with_capability(&Capability::Commands);
    assert_eq!(cmd_plugins.len(), 1);
    assert_eq!(cmd_plugins[0].info.name, "a");
}

#[test]
fn host_names() {
    let mut host = PluginHost::new();
    host.register(test_info("z")).unwrap();
    host.register(test_info("a")).unwrap();
    let mut names = host.names();
    names.sort();
    assert_eq!(names, vec!["a", "z"]);
}

#[test]
fn host_add_command() {
    let mut host = PluginHost::new();
    host.register(test_info("p")).unwrap();
    host.add_command("p", "my:cmd".into()).unwrap();
    let plugin = host.get("p").unwrap();
    assert_eq!(plugin.commands, vec!["my:cmd"]);
}

#[test]
fn host_add_command_to_missing_fails() {
    let mut host = PluginHost::new();
    let err = host.add_command("nope", "x".into()).unwrap_err();
    assert!(err.contains("not registered"));
}

#[test]
fn host_all_commands() {
    let mut host = PluginHost::new();
    host.register(test_info("p1")).unwrap();
    host.register(test_info("p2")).unwrap();
    host.add_command("p1", "a".into()).unwrap();
    host.add_command("p2", "b".into()).unwrap();
    let cmds = host.all_commands();
    assert_eq!(cmds.len(), 2);
    assert!(cmds.contains(&"a"));
    assert!(cmds.contains(&"b"));
}

#[test]
fn host_running_plugins() {
    let mut host = PluginHost::new();
    host.register(test_info("a")).unwrap();
    host.register(test_info("b")).unwrap();
    host.set_state("a", PluginState::Running).unwrap();
    let running = host.running();
    assert_eq!(running.len(), 1);
    assert_eq!(running[0].info.name, "a");
}

#[test]
fn plugin_state_default_is_registered() {
    assert_eq!(PluginState::default(), PluginState::Registered);
}

#[test]
fn capability_variants() {
    let caps = [
        Capability::Commands,
        Capability::Widgets,
        Capability::Themes,
        Capability::Events,
        Capability::FileSystem,
        Capability::Custom("x".into()),
    ];
    assert_eq!(caps.len(), 6);
}

#[test]
fn custom_capability_equality() {
    let a = Capability::Custom("foo".into());
    let b = Capability::Custom("foo".into());
    let c = Capability::Custom("bar".into());
    assert_eq!(a, b);
    assert_ne!(a, c);
}

// ── Lifecycle hooks ──────────────────────────────────────────────────────

#[test]
fn lifecycle_happy_path() {
    let mut host = PluginHost::new();
    host.register(test_info("p")).unwrap();
    assert_eq!(host.state("p"), Some(PluginState::Registered));
    host.initialize("p").unwrap();
    assert_eq!(host.state("p"), Some(PluginState::Initialized));
    host.start("p").unwrap();
    assert_eq!(host.state("p"), Some(PluginState::Running));
    host.stop("p").unwrap();
    assert_eq!(host.state("p"), Some(PluginState::Stopped));
    // Stopped plugins can be restarted.
    host.start("p").unwrap();
    assert_eq!(host.state("p"), Some(PluginState::Running));
}

#[test]
fn lifecycle_rejects_illegal_transition() {
    let mut host = PluginHost::new();
    host.register(test_info("p")).unwrap();
    // Cannot start before initializing.
    let err = host.start("p").unwrap_err();
    assert!(err.contains("cannot start"));
    assert_eq!(host.state("p"), Some(PluginState::Registered));
    // Cannot stop something that is not running.
    assert!(host.stop("p").is_err());
}

#[test]
fn lifecycle_mark_error_from_any_state() {
    let mut host = PluginHost::new();
    host.register(test_info("p")).unwrap();
    host.mark_error("p").unwrap();
    assert_eq!(host.state("p"), Some(PluginState::Error));
}

// ── Slot registry ────────────────────────────────────────────────────────

#[test]
fn slot_append_orders_by_priority() {
    let mut slot: SlotRegistry<&str> = SlotRegistry::new(SlotMode::Append);
    slot.register("a", 0, "low");
    slot.register("b", 10, "high");
    slot.register("c", 5, "mid");
    assert_eq!(slot.resolve(), vec!["high", "mid", "low"]);
    assert_eq!(slot.len(), 3);
}

#[test]
fn slot_single_winner_picks_highest_priority() {
    let mut slot: SlotRegistry<&str> = SlotRegistry::new(SlotMode::SingleWinner);
    slot.register("a", 1, "a");
    slot.register("b", 9, "b");
    slot.register("c", 3, "c");
    assert_eq!(slot.resolve(), vec!["b"]);
}

#[test]
fn slot_single_winner_ties_keep_first() {
    let mut slot: SlotRegistry<&str> = SlotRegistry::new(SlotMode::SingleWinner);
    slot.register("a", 5, "first");
    slot.register("b", 5, "second");
    assert_eq!(slot.resolve(), vec!["first"]);
}

#[test]
fn slot_replace_keeps_last() {
    let mut slot: SlotRegistry<&str> = SlotRegistry::new(SlotMode::Replace);
    slot.register("a", 0, "old");
    slot.register("b", 0, "new");
    assert_eq!(slot.len(), 1);
    assert_eq!(slot.resolve(), vec!["new"]);
}

#[test]
fn slot_remove_by_token_and_plugin() {
    let mut slot: SlotRegistry<&str> = SlotRegistry::new(SlotMode::Append);
    let t = slot.register("a", 0, "x");
    slot.register("a", 0, "y");
    slot.register("b", 0, "z");
    assert!(slot.remove(t));
    assert!(!slot.remove(9999));
    assert_eq!(slot.remove_plugin("a"), 1); // only "y" remains under plugin a
    assert_eq!(slot.resolve(), vec!["z"]);
}

#[test]
fn slot_dirty_flag_coalesces() {
    let mut slot: SlotRegistry<&str> = SlotRegistry::new(SlotMode::Append);
    assert!(!slot.take_dirty());
    slot.register("a", 0, "x");
    slot.register("a", 0, "y");
    assert!(slot.take_dirty(), "registration sets dirty");
    assert!(!slot.take_dirty(), "dirty cleared after take");
}

#[test]
fn lifecycle_error_messages_and_reinitialize() {
    let mut host = PluginHost::new();
    host.register(test_info("p")).unwrap();
    assert_eq!(host.start("p").unwrap_err(), "cannot start plugin 'p' from state Registered");
    assert_eq!(host.stop("q").unwrap_err(), "Plugin 'q' is not registered");
    host.initialize("p").unwrap();
    host.initialize("p").unwrap();
    assert_eq!(host.state("p"), Some(PluginState::Initialized));
    host.start("p").unwrap();
    assert_eq!(host.initialize("p").unwrap_err(), "cannot initialize plugin 'p' from state Running");
    host.stop("p").unwrap();
    host.initialize("p").unwrap();
    assert_eq!(host.state("p"), Some(PluginState::Initialized));
    assert_eq!(host.register(test_info("p")).unwrap_err(), "Plugin 'p' is already registered");
}

#[test]
fn slot_append_ties_keep_registration_order() {
    let mut slot: SlotRegistry<&str> = SlotRegistry::new(SlotMode::Append);
    slot.register("a", 1, "a1");
    slot.register("b", 2, "b2");
    slot.register("c", 1, "c1");
    slot.register("d", 2, "d2");
    assert_eq!(slot.resolve(), vec!["b2", "d2", "a1", "c1"]);
    let empty: SlotRegistry<&str> = SlotRegistry::default();
    assert!(empty.resolve().is_empty());
    assert!(empty.is_empty());
}

#[test]
fn host_custom_capability_query() {
    let mut host = PluginHost::new();
    let mut info = test_info("x");
    info.capabilities = vec![Capability::Custom("theme-pack".into())];
    host.register(info).unwrap();
    assert_eq!(host.with_capability(&Capability::Custom("theme-pack".into())).len(), 1);
    assert!(host.with_capability(&Capability::Custom("other".into())).is_empty());
    assert!(host.with_capability(&Capability::Themes).is_empty());
}
