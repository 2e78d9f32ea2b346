//! Backend selection and the consumer-side output map.

use limbo_sync::model::{OutputInfo, WorkspaceInfo};
use limbo_sync::output_map::OutputMap;
use limbo_sync::select::{select_backend, Backend};

#[test]
fn first_successful_probe_wins() {
    assert_eq!(select_backend(true, true), Some(Backend::Hyprland));
    assert_eq!(select_backend(true, false), Some(Backend::Hyprland));
    assert_eq!(select_backend(false, true), Some(Backend::Niri));
}

#[test]
fn no_backend_detected_selects_nothing() {
    assert_eq!(select_backend(false, false), None);
}

fn info(name: &str, show_transparent: bool) -> OutputInfo {
    OutputInfo {
        name: name.to_string(),
        workspaces: vec![WorkspaceInfo { has_windows: !show_transparent }],
        active_workspace_idx: Some(0),
        show_transparent,
    }
}

#[test]
fn map_folds_updates_by_output_name() {
    let mut m = OutputMap::new();
    assert_eq!(m.len(), 0);
    m.insert(info("DP-1", false));
    m.insert(info("HDMI-1", true));
    assert_eq!(m.len(), 2);

    // An update for a known output replaces its snapshot in place.
    m.insert(info("DP-1", true));
    assert_eq!(m.len(), 2);
    assert!(m.get(&"DP-1".to_string()).unwrap().show_transparent);
    assert!(m.get(&"HDMI-1".to_string()).unwrap().show_transparent);
    assert!(m.get(&"eDP-1".to_string()).is_none());
}

#[test]
fn transparency_lookup_defaults_to_opaque() {
    let mut m = OutputMap::new();
    m.insert(info("DP-1", true));
    assert!(m.is_transparent(&"DP-1".to_string()));
    m.insert(info("DP-1", false));
    assert!(!m.is_transparent(&"DP-1".to_string()));
    assert!(!m.is_transparent(&"HDMI-1".to_string()));
}

#[test]
fn map_keeps_first_sight_order() {
    let mut m = OutputMap::new();
    m.insert(info("B", false));
    m.insert(info("A", false));
    m.insert(info("B", true));
    let names: Vec<String> = m.entries().iter().map(|e| e.name.clone()).collect();
    assert_eq!(names, ["B", "A"]);
}
