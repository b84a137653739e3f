use bettertui_engine::palette::{fuzzy_score, CommandPalette, PaletteCommand};

fn test_commands() -> Vec<PaletteCommand> {
    vec![
        PaletteCommand::new("Save File").with_category("File"),
        PaletteCommand::new("Open File").with_category("File"),
        PaletteCommand::new("Find and Replace").with_category("Edit"),
        PaletteCommand::new("Toggle Terminal").with_category("View"),
    ]
}

#[test]
fn fuzzy_match_exact() {
    let (score, matches) = fuzzy_score("save", "Save File").unwrap();
    assert!(score > 0);
    assert_eq!(matches.len(), 4);
}

#[test]
fn fuzzy_match_partial() {
    let result = fuzzy_score("sv", "Save File");
    assert!(result.is_some());
}

#[test]
fn fuzzy_no_match() {
    let result = fuzzy_score("xyz", "Save File");
    assert!(result.is_none());
}

#[test]
fn fuzzy_empty_query() {
    let result = fuzzy_score("", "anything");
    assert!(result.is_some());
}

#[test]
fn palette_add_and_query() {
    let mut palette = CommandPalette::new();
    for cmd in test_commands() {
        palette.add(cmd);
    }
    assert_eq!(palette.command_count(), 4);
    palette.set_query("save");
    assert_eq!(palette.result_count(), 1);
    assert_eq!(palette.selected().unwrap().command.label, "Save File");
}

#[test]
fn palette_navigation() {
    let mut palette = CommandPalette::new();
    for cmd in test_commands() {
        palette.add(cmd);
    }
    palette.set_query("file");
    assert!(palette.result_count() >= 2);
    palette.select_next();
    assert!(palette.selected_index() > 0);
    palette.select_previous();
    assert_eq!(palette.selected_index(), 0);
}

#[test]
fn palette_first_last() {
    let mut palette = CommandPalette::new();
    for cmd in test_commands() {
        palette.add(cmd);
    }
    palette.set_query("");
    palette.select_last();
    assert_eq!(palette.selected_index(), palette.result_count() - 1);
    palette.select_first();
    assert_eq!(palette.selected_index(), 0);
}

#[test]
fn palette_empty_query_shows_all() {
    let mut palette = CommandPalette::new();
    for cmd in test_commands() {
        palette.add(cmd);
    }
    palette.set_query("");
    assert_eq!(palette.result_count(), 4);
}

#[test]
fn palette_disabled_commands_filtered() {
    let mut palette = CommandPalette::new();
    palette.add(PaletteCommand::new("Enabled"));
    palette.add(PaletteCommand::new("Disabled").with_category("test"));
    palette.commands[1].enabled = false;
    palette.set_query("");
    assert_eq!(palette.result_count(), 1);
}

#[test]
fn palette_clear() {
    let mut palette = CommandPalette::new();
    palette.add(PaletteCommand::new("test"));
    palette.clear();
    assert_eq!(palette.command_count(), 0);
    assert_eq!(palette.result_count(), 0);
}

#[test]
fn palette_shortcut() {
    let cmd = PaletteCommand::new("Save").with_shortcut("Ctrl+S");
    assert_eq!(cmd.shortcut.as_deref(), Some("Ctrl+S"));
}

#[test]
fn fuzzy_scores_exactly() {
    // "save" in "Save File": positions 0..4; one word start (10), three runs (15),
    // not the whole target, minus 9 / 2 = 4, plus 4 * 10 / 4 = 10
    let (score, matches) = fuzzy_score("save", "Save File").unwrap();
    assert_eq!(matches, vec![0, 1, 2, 3]);
    assert_eq!(score, 10 + 15 - 4 + 10);
    // "sf": 's' at 0 (word start), 'f' at 5 (after a space)
    let (score, matches) = fuzzy_score("sf", "Save File").unwrap();
    assert_eq!(matches, vec![0, 5]);
    assert_eq!(score, 20 - 4 + 10);
    // whole target: 10 + 5 + 20 - 1 + 10
    assert_eq!(fuzzy_score("AB", "ab"), Some((44, vec![0, 1])));
}

#[test]
fn palette_orders_by_score_and_clamps_selection() {
    let mut palette = CommandPalette::default();
    palette.add(PaletteCommand::new("xfile_save").with_description("d"));
    palette.add(PaletteCommand::new("Save File"));
    palette.set_query("save");
    assert_eq!(palette.result_count(), 2);
    assert_eq!(palette.results()[0].command.label, "Save File");
    palette.select_last();
    assert_eq!(palette.selected_index(), 1);
    palette.set_query("save file");
    assert_eq!(palette.result_count(), 1);
    assert_eq!(palette.selected_index(), 0);
    palette.select_next();
    assert_eq!(palette.selected_index(), 0);
    assert_eq!(palette.query(), "save file");
    palette.set_query("zzz");
    assert!(palette.selected().is_none());
}
