use shell::workspaces::needs_refresh;
use shell::hypr::{Monitor, Workspace, WorkspaceRef, WorkspaceSelector};
use shell::workspaces::{snapshot, BarEntry, ButtonLook, WorkspaceFilter, WorkspacesWidget};

fn ws(id: i32, name: &str, windows: u16) -> Workspace {
    Workspace { id, name: name.to_owned(), monitor: "DP-1".to_owned(), windows }
}

fn mon(name: &str, focused: bool, active: i32) -> Monitor {
    Monitor {
        id: 0,
        name: name.to_owned(),
        focused,
        active_workspace: WorkspaceRef { id: active, name: active.to_string() },
    }
}

#[test]
fn row_is_filtered_and_sorted_by_id() {
    let workspaces = vec![ws(3, "3", 1), ws(-98, "special:magic", 2), ws(1, "1", 0), ws(2, "2", 4)];
    let monitors = vec![mon("DP-1", false, 2), mon("DP-2", true, 3)];
    let all = WorkspaceFilter { show_empty: true, show_special: true };
    let s = snapshot(all, workspaces.clone(), &monitors);
    let ids: Vec<i32> = s.workspaces.iter().map(|e| e.id).collect();
    assert_eq!(ids, [-98, 1, 2, 3]);
    assert_eq!(s.active, Some(3));
    assert_eq!(s.visible, [2, 3]);

    let plain = WorkspaceFilter { show_empty: false, show_special: false };
    let s = snapshot(plain, workspaces, &monitors);
    let ids: Vec<i32> = s.workspaces.iter().map(|e| e.id).collect();
    assert_eq!(ids, [2, 3]);
}

#[test]
fn no_focused_monitor_means_no_active_workspace() {
    let s = snapshot(
        WorkspaceFilter { show_empty: true, show_special: false },
        vec![ws(1, "1", 0)],
        &vec![mon("DP-1", false, 1)],
    );
    assert_eq!(s.active, None);
}

#[test]
fn button_looks_and_clicks() {
    let monitors = vec![mon("DP-1", true, 1), mon("DP-2", false, 2)];
    let s = snapshot(
        WorkspaceFilter { show_empty: true, show_special: true },
        vec![ws(1, "1", 1), ws(2, "2", 0), ws(3, "3", 2), ws(4, "4", 0), ws(-99, "special:x", 1)],
        &monitors,
    );
    let looks: Vec<ButtonLook> = s.workspaces.iter().map(|e| WorkspacesWidget::look(&s, e)).collect();
    assert_eq!(
        looks,
        [ButtonLook::Occupied, ButtonLook::Active, ButtonLook::Visible, ButtonLook::Occupied, ButtonLook::Empty]
    );
    let one: &BarEntry = &s.workspaces[1];
    assert_eq!(WorkspacesWidget::click_target(&s, one), None);
    assert_eq!(WorkspacesWidget::click_target(&s, &s.workspaces[2]), Some(WorkspaceSelector::Id(2)));
    assert_eq!(
        WorkspacesWidget::click_target(&s, &s.workspaces[0]),
        Some(WorkspaceSelector::Name("special:x"))
    );
}

#[test]
fn workspace_and_window_events_refresh_the_row() {
    for name in ["workspace", "createworkspace", "destroyworkspace", "moveworkspace", "renameworkspace",
        "focusedmon", "monitoradded", "monitorremoved", "openwindow", "closewindow", "movewindow"] {
        assert!(needs_refresh(name), "{name}");
    }
    assert!(!needs_refresh("activewindow"));
    assert!(!needs_refresh("workspacev2"));
    assert!(!needs_refresh(""));
}
