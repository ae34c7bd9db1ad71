//! Tab-state helpers and the settings model.

use dupscan::ui_state::SettingsUI;
use dupscan::ui_state::ShowTab;
use dupscan::ui_state::Tab;
use dupscan::ui_state::TabState;

#[test]
fn tab_state_answers_by_position() {
    let ts = TabState::new(2, 2, 1);
    assert!(ts.is_hovered());
    assert!(!ts.is_selected());
    assert_eq!(ts.index(), 2);
    assert_eq!(ts.hovered_tab(), 2);
    assert_eq!(ts.selected_tab(), 1);
}

#[test]
fn show_tab_maps_positions_both_ways() {
    assert_eq!(ShowTab::from(0), ShowTab::Scanned);
    assert_eq!(ShowTab::from(1), ShowTab::Errors);
    assert_eq!(ShowTab::from(2), ShowTab::Duplicates);
    assert_eq!(ShowTab::from(99), ShowTab::Duplicates);
    assert_eq!(ShowTab::Scanned.index(), 0);
    assert_eq!(ShowTab::Errors.index(), 1);
    assert_eq!(ShowTab::Duplicates.index(), 2);
}

#[test]
fn settings_start_from_the_builtin_catalog() {
    let s = SettingsUI::new();
    assert_eq!(s.media_groups.len(), 6);
    assert!(s.media_groups[0].selected);
    assert!(!s.media_groups[5].selected);
}

#[test]
fn tabs_are_ordinary_values() {
    let t = Tab::Home;
    assert_eq!(t, Tab::Home);
    assert!(Tab::Home < Tab::Settings);
}
