//! Behavior of the callback backend's full recompute.

use limbo_sync::hypr::{make_output_info, HyprMonitor, HyprWorkspace};

fn ws(id: i32, monitor_id: i128, windows: u16) -> HyprWorkspace {
    HyprWorkspace { id, monitor_id, windows }
}

fn mon(id: i128, name: &str, active_workspace_id: i32) -> HyprMonitor {
    HyprMonitor {
        id,
        name: name.to_string(),
        active_workspace_id,
    }
}

#[test]
fn recompute_builds_the_monitors_snapshot() {
    let workspaces = vec![ws(3, 0, 2), ws(1, 0, 0), ws(2, 0, 1), ws(4, 1, 5)];
    let monitors = vec![mon(0, "DP-1", 2), mon(1, "HDMI-1", 4)];
    let info = make_output_info(1, &workspaces, &monitors).unwrap();
    assert_eq!(info.name, "DP-1");
    let windows: Vec<bool> = info.workspaces.iter().map(|w| w.has_windows).collect();
    assert_eq!(windows, [false, true, true]);
    assert_eq!(info.active_workspace_idx, Some(1));
    assert!(!info.show_transparent);
}

#[test]
fn active_workspace_without_windows_means_transparent() {
    let workspaces = vec![ws(1, 0, 0), ws(2, 0, 3)];
    let monitors = vec![mon(0, "eDP-1", 1)];
    let info = make_output_info(2, &workspaces, &monitors).unwrap();
    assert_eq!(info.active_workspace_idx, Some(0));
    assert!(info.show_transparent);
}

#[test]
fn missing_active_workspace_means_opaque() {
    // The monitor's active workspace is not among the queried workspaces:
    // no active position, and the bar stays opaque.
    let workspaces = vec![ws(1, 0, 0)];
    let monitors = vec![mon(0, "eDP-1", 9)];
    let info = make_output_info(1, &workspaces, &monitors).unwrap();
    assert_eq!(info.active_workspace_idx, None);
    assert!(!info.show_transparent);
}

#[test]
fn vanished_workspace_drops_the_event() {
    let workspaces = vec![ws(1, 0, 0)];
    let monitors = vec![mon(0, "DP-1", 1)];
    assert!(make_output_info(7, &workspaces, &monitors).is_none());
}

#[test]
fn vanished_monitor_drops_the_event() {
    let workspaces = vec![ws(1, 5, 0)];
    let monitors = vec![mon(0, "DP-1", 1)];
    assert!(make_output_info(1, &workspaces, &monitors).is_none());
}

#[test]
fn negative_workspace_ids_sort_first() {
    let workspaces = vec![ws(2, 0, 1), ws(-98, 0, 1), ws(1, 0, 0)];
    let monitors = vec![mon(0, "DP-1", 1)];
    let info = make_output_info(2, &workspaces, &monitors).unwrap();
    let windows: Vec<bool> = info.workspaces.iter().map(|w| w.has_windows).collect();
    assert_eq!(windows, [true, false, true]);
    assert_eq!(info.active_workspace_idx, Some(1));
}
