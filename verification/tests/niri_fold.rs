//! Behavior of the diffing event fold.

use limbo_sync::model::{OutputInfo, WorkspaceInfo};
use limbo_sync::niri::{DesktopEvent, NiriState, NiriWorkspace};

fn ws(id: u64, idx: u8, output: &str, is_active: bool, has_active_window: bool) -> NiriWorkspace {
    NiriWorkspace {
        id,
        idx,
        output: Some(output.to_string()),
        is_active,
        has_active_window,
    }
}

fn assert_info(
    info: &OutputInfo,
    name: &str,
    windows: &[bool],
    active_workspace_idx: Option<usize>,
    show_transparent: bool,
) {
    assert_eq!(info.name, name);
    let got: Vec<bool> = info.workspaces.iter().map(|w| w.has_windows).collect();
    assert_eq!(got, windows);
    assert_eq!(info.active_workspace_idx, active_workspace_idx);
    assert_eq!(info.show_transparent, show_transparent);
}

#[test]
fn round_trip_two_outputs_three_workspaces() {
    // Full topology: two outputs, three workspaces each, the second one on
    // each output active and holding windows.
    let mut st = NiriState::new();
    let emitted = st.apply(DesktopEvent::WorkspacesChanged {
        workspaces: vec![
            ws(1, 1, "DP-1", false, false),
            ws(2, 2, "DP-1", true, true),
            ws(3, 3, "DP-1", false, false),
            ws(4, 1, "HDMI-1", false, false),
            ws(5, 2, "HDMI-1", true, true),
            ws(6, 3, "HDMI-1", false, false),
        ],
    });
    assert_eq!(emitted.len(), 2);
    assert_info(&emitted[0], "DP-1", &[false, true, false], Some(1), false);
    assert_info(&emitted[1], "HDMI-1", &[false, true, false], Some(1), false);
}

#[test]
fn window_removed_turns_bar_transparent() {
    // One output: an empty first workspace and an active second one with a
    // window; then the window goes away.
    let mut st = NiriState::new();
    let first = st.apply(DesktopEvent::WorkspacesChanged {
        workspaces: vec![
            ws(1, 1, "outputA", false, false),
            ws(2, 2, "outputA", true, true),
        ],
    });
    assert_eq!(first.len(), 1);
    assert_info(&first[0], "outputA", &[false, true], Some(1), false);

    let second = st.apply(DesktopEvent::WorkspaceActiveWindowChanged {
        workspace_id: 2,
        has_active_window: false,
    });
    assert_eq!(second.len(), 1);
    assert_info(&second[0], "outputA", &[false, false], Some(1), true);

    let stored = st.outputs();
    assert_eq!(stored.len(), 1);
    assert_info(&stored[0], "outputA", &[false, false], Some(1), true);
}

#[test]
fn repeated_activation_is_suppressed() {
    // Delivering the same activation twice emits at most once.
    let mut st = NiriState::new();
    st.apply(DesktopEvent::WorkspacesChanged {
        workspaces: vec![
            ws(1, 1, "eDP-1", true, false),
            ws(2, 2, "eDP-1", false, true),
        ],
    });
    let first = st.apply(DesktopEvent::WorkspaceActivated { id: 2 });
    assert_eq!(first.len(), 1);
    assert_info(&first[0], "eDP-1", &[false, true], Some(1), false);

    let second = st.apply(DesktopEvent::WorkspaceActivated { id: 2 });
    assert_eq!(second.len(), 0);
    let stored = st.outputs();
    assert_eq!(stored.len(), 1);
    assert_info(&stored[0], "eDP-1", &[false, true], Some(1), false);
}

#[test]
fn activating_already_active_workspace_emits_nothing() {
    let mut st = NiriState::new();
    st.apply(DesktopEvent::WorkspacesChanged {
        workspaces: vec![
            ws(7, 1, "eDP-1", true, true),
            ws(8, 2, "eDP-1", false, false),
        ],
    });
    let emitted = st.apply(DesktopEvent::WorkspaceActivated { id: 7 });
    assert_eq!(emitted.len(), 0);
}

#[test]
fn overview_toggle_emits_both_transitions() {
    // Overview opens while the active workspace has windows: the bar flips
    // to transparent; closing it right after flips it back.  Both emit.
    let mut st = NiriState::new();
    st.apply(DesktopEvent::WorkspacesChanged {
        workspaces: vec![
            ws(1, 1, "DP-2", true, true),
            ws(2, 2, "DP-2", false, false),
        ],
    });
    assert!(!st.is_overview_open());

    let opened = st.apply(DesktopEvent::OverviewOpenedOrClosed { is_open: true });
    assert!(st.is_overview_open());
    assert_eq!(opened.len(), 1);
    assert_info(&opened[0], "DP-2", &[true, false], Some(0), true);

    let closed = st.apply(DesktopEvent::OverviewOpenedOrClosed { is_open: false });
    assert!(!st.is_overview_open());
    assert_eq!(closed.len(), 1);
    assert_info(&closed[0], "DP-2", &[true, false], Some(0), false);
}

#[test]
fn overview_while_bar_already_transparent_emits_nothing() {
    // The active workspace has no windows, so the bar is already
    // transparent; opening the overview changes no output's value.
    let mut st = NiriState::new();
    st.apply(DesktopEvent::WorkspacesChanged {
        workspaces: vec![ws(1, 1, "DP-1", true, false)],
    });
    let emitted = st.apply(DesktopEvent::OverviewOpenedOrClosed { is_open: true });
    assert_eq!(emitted.len(), 0);
    assert!(st.is_overview_open());
}

#[test]
fn unknown_event_kind_changes_nothing() {
    let mut st = NiriState::new();
    st.apply(DesktopEvent::WorkspacesChanged {
        workspaces: vec![
            ws(1, 1, "DP-1", true, true),
            ws(2, 2, "DP-1", false, false),
        ],
    });
    let before: Vec<OutputInfo> = st.outputs().clone();
    let emitted = st.apply(DesktopEvent::Other);
    assert_eq!(emitted.len(), 0);
    let after = st.outputs();
    assert_eq!(after.len(), before.len());
    for (a, b) in after.iter().zip(before.iter()) {
        assert!(a.same_view(b));
    }
    assert!(!st.is_overview_open());
}

#[test]
fn topology_sorts_workspaces_by_index() {
    // Records arrive out of order; the snapshot lists them ascending by
    // compositor index, and the active position follows the sort.
    let mut st = NiriState::new();
    let emitted = st.apply(DesktopEvent::WorkspacesChanged {
        workspaces: vec![
            ws(30, 3, "DP-1", false, true),
            ws(10, 1, "DP-1", false, false),
            ws(20, 2, "DP-1", true, true),
        ],
    });
    assert_eq!(emitted.len(), 1);
    assert_info(&emitted[0], "DP-1", &[false, true, true], Some(1), false);
}

#[test]
fn topology_replaces_previous_state_wholesale() {
    // A later topology event retires outputs it no longer names.
    let mut st = NiriState::new();
    st.apply(DesktopEvent::WorkspacesChanged {
        workspaces: vec![ws(1, 1, "DP-1", true, false), ws(2, 1, "HDMI-1", true, false)],
    });
    assert_eq!(st.outputs().len(), 2);
    let emitted = st.apply(DesktopEvent::WorkspacesChanged {
        workspaces: vec![ws(2, 1, "HDMI-1", true, true)],
    });
    assert_eq!(emitted.len(), 1);
    assert_info(&emitted[0], "HDMI-1", &[true], Some(0), false);
    assert_eq!(st.outputs().len(), 1);
}

#[test]
fn empty_topology_clears_everything_and_emits_nothing() {
    let mut st = NiriState::new();
    st.apply(DesktopEvent::WorkspacesChanged {
        workspaces: vec![ws(1, 1, "DP-1", true, false)],
    });
    let emitted = st.apply(DesktopEvent::WorkspacesChanged { workspaces: vec![] });
    assert_eq!(emitted.len(), 0);
    assert_eq!(st.outputs().len(), 0);
}

#[test]
fn events_for_unknown_workspaces_are_dropped() {
    let mut st = NiriState::new();
    st.apply(DesktopEvent::WorkspacesChanged {
        workspaces: vec![ws(1, 1, "DP-1", true, false)],
    });
    let a = st.apply(DesktopEvent::WorkspaceActivated { id: 99 });
    assert_eq!(a.len(), 0);
    let b = st.apply(DesktopEvent::WorkspaceActiveWindowChanged {
        workspace_id: 99,
        has_active_window: true,
    });
    assert_eq!(b.len(), 0);
    let stored = st.outputs();
    assert_eq!(stored.len(), 1);
    assert_info(&stored[0], "DP-1", &[false], Some(0), true);
}

#[test]
fn workspace_without_output_joins_no_group() {
    let mut st = NiriState::new();
    let emitted = st.apply(DesktopEvent::WorkspacesChanged {
        workspaces: vec![
            NiriWorkspace {
                id: 1,
                idx: 1,
                output: None,
                is_active: true,
                has_active_window: true,
            },
            ws(2, 1, "DP-1", true, false),
        ],
    });
    assert_eq!(emitted.len(), 1);
    assert_info(&emitted[0], "DP-1", &[false], Some(0), true);
    // Touching the orphan workspace changes state but emits nothing.
    let more = st.apply(DesktopEvent::WorkspaceActiveWindowChanged {
        workspace_id: 1,
        has_active_window: false,
    });
    assert_eq!(more.len(), 0);
}

#[test]
fn no_active_workspace_means_transparent_bar() {
    // No workspace flagged active: no active workspace with windows, so
    // the bar is transparent and the active index is absent.
    let mut st = NiriState::new();
    let emitted = st.apply(DesktopEvent::WorkspacesChanged {
        workspaces: vec![ws(1, 1, "DP-1", false, true), ws(2, 2, "DP-1", false, false)],
    });
    assert_eq!(emitted.len(), 1);
    assert_info(&emitted[0], "DP-1", &[true, false], None, true);
}

#[test]
fn workspaces_with_equal_indices_keep_arrival_order() {
    let mut st = NiriState::new();
    let emitted = st.apply(DesktopEvent::WorkspacesChanged {
        workspaces: vec![ws(1, 1, "DP-1", true, true), ws(2, 1, "DP-1", false, false)],
    });
    assert_eq!(emitted.len(), 1);
    assert_info(&emitted[0], "DP-1", &[true, false], Some(0), false);
}

#[test]
fn activation_touches_only_its_own_output() {
    let mut st = NiriState::new();
    st.apply(DesktopEvent::WorkspacesChanged {
        workspaces: vec![
            ws(1, 1, "DP-1", true, false),
            ws(2, 2, "DP-1", false, true),
            ws(3, 1, "HDMI-1", true, true),
        ],
    });
    let emitted = st.apply(DesktopEvent::WorkspaceActivated { id: 2 });
    assert_eq!(emitted.len(), 1);
    assert_info(&emitted[0], "DP-1", &[false, true], Some(1), false);
    let stored = st.outputs();
    assert_eq!(stored.len(), 2);
    assert_info(&stored[1], "HDMI-1", &[true], Some(0), false);
}

#[test]
fn model_equality_helpers() {
    let a = WorkspaceInfo { has_windows: true };
    let b = WorkspaceInfo { has_windows: true };
    let c = WorkspaceInfo { has_windows: false };
    assert_eq!(a, b);
    assert_ne!(a, c);

    let mut st = NiriState::new();
    let emitted = st.apply(DesktopEvent::WorkspacesChanged {
        workspaces: vec![ws(1, 1, "DP-1", true, true)],
    });
    assert!(emitted[0].same_view(&st.outputs()[0]));
}
