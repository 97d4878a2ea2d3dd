use deskbar::hyprland::{
    arrange_workspaces, focus_workspace, icon_grid, listener_messages, workspace_classes,
    workspace_client_classes, workspaces, ClientInfo, CompositorEvent, HyprlandData,
    HyprlandMessage, HyprlandRefresh, IconGrid, MonitorInfo, WorkspaceInfo, WorkspaceMode,
};

fn ws(id: i32, windows: u16) -> WorkspaceInfo {
    WorkspaceInfo { id, windows }
}

fn mon(id: i128, active: i32) -> MonitorInfo {
    MonitorInfo { id, active_workspace: active }
}

fn client(workspace: i32, class: &str) -> ClientInfo {
    ClientInfo { workspace, class: class.to_string() }
}

#[test]
fn slots_hold_their_number() {
    let slots = arrange_workspaces(&vec![ws(3, 1), ws(1, 0), ws(12, 2), ws(-99, 1), ws(10, 4)]);
    assert_eq!(slots.len(), 10);
    assert_eq!(slots[0], Some(ws(1, 0)));
    assert_eq!(slots[1], None);
    assert_eq!(slots[2], Some(ws(3, 1)));
    assert_eq!(slots[9], Some(ws(10, 4)));
    for k in [1, 3, 4, 5, 6, 7, 8] {
        assert_eq!(slots[k], None);
    }
}

#[test]
fn first_reported_workspace_wins_its_slot() {
    let slots = arrange_workspaces(&vec![ws(2, 5), ws(2, 7)]);
    assert_eq!(slots[1], Some(ws(2, 5)));
}

#[test]
fn no_workspaces_gives_empty_slots() {
    let slots = arrange_workspaces(&vec![]);
    assert_eq!(slots, vec![None; 10]);
}

#[test]
fn classes_prefer_active_then_other_then_used() {
    let monitors = vec![mon(0, 1), mon(1, 2)];
    let here = monitors[0];
    assert_eq!(workspace_classes(&monitors, &here, &ws(1, 0), "workspace-line"), "workspace-line active");
    assert_eq!(workspace_classes(&monitors, &here, &ws(2, 3), "workspace-line"), "workspace-line other");
    assert_eq!(workspace_classes(&monitors, &here, &ws(3, 3), "workspace-line"), "workspace-line used");
    assert_eq!(workspace_classes(&monitors, &here, &ws(4, 0), "workspace-line"), "workspace-line");
}

#[test]
fn focus_request_names_the_workspace() {
    let request = focus_workspace(7);
    assert_eq!(request.dispatcher, "focusworkspaceoncurrentmonitor");
    assert_eq!(request.argument, "7");
    assert_eq!(focus_workspace(-98).argument, "-98");
    assert_eq!(focus_workspace(1234).argument, "1234");
    assert_eq!(focus_workspace(i32::MIN).argument, i32::MIN.to_string());
}

#[test]
fn line_column_buttons() {
    let data = HyprlandData::new(vec![ws(2, 1)], vec![mon(0, 2)], vec![]);
    assert_eq!(data.workspace_mode, WorkspaceMode::Line);
    let column = workspaces(&data, &data.monitors[0]);
    assert_eq!(column.spacing, None);
    assert_eq!(column.buttons.len(), 10);
    assert_eq!(column.buttons[0].workspace, 1);
    assert!(!column.buttons[0].occupied);
    assert_eq!(column.buttons[0].classes, "workspace-line");
    assert_eq!(column.buttons[1].workspace, 2);
    assert!(column.buttons[1].occupied);
    assert_eq!(column.buttons[1].classes, "workspace-line active");
    assert_eq!(column.buttons[9].workspace, 10);
}

#[test]
fn icon_column_buttons() {
    let mut data = HyprlandData::new(vec![ws(1, 2)], vec![mon(0, 5)], vec![]);
    data.workspace_mode = WorkspaceMode::Icons;
    let column = workspaces(&data, &data.monitors[0]);
    assert_eq!(column.spacing, Some(10));
    assert_eq!(column.buttons[0].classes, "workspace-icons used");
    assert_eq!(column.buttons[1].classes, "workspace");
    assert!(!column.buttons[1].occupied);
}

#[test]
fn refresh_events_replace_their_part() {
    let mut data = HyprlandData::new(vec![], vec![], vec![]);
    let action = data.handle_event(Some(HyprlandRefresh::Workspaces(vec![ws(4, 1)])));
    assert!(action.rebuild);
    assert_eq!(data.workspaces[3], Some(ws(4, 1)));
    let action = data.handle_event(Some(HyprlandRefresh::Monitors(vec![mon(1, 4)])));
    assert!(action.rebuild);
    assert_eq!(data.monitors, vec![mon(1, 4)]);
    let action = data.handle_event(Some(HyprlandRefresh::Clients(vec![client(4, "foot")])));
    assert!(action.rebuild);
    assert_eq!(data.clients.len(), 1);
    let action = data.handle_event(None);
    assert!(!action.rebuild);
    assert_eq!(data.workspaces[3], Some(ws(4, 1)));
}

#[test]
fn classes_of_windows_on_a_workspace() {
    let clients = vec![client(1, "firefox"), client(2, "foot"), client(1, "foot"), client(1, "firefox")];
    assert_eq!(workspace_client_classes(&clients, 1), vec!["firefox", "foot", "firefox"]);
    assert!(workspace_client_classes(&clients, 3).is_empty());
}

#[test]
fn icon_grid_layouts() {
    assert!(matches!(icon_grid::<u8>(vec![]), IconGrid::Empty));
    match icon_grid(vec![1, 2]) {
        IconGrid::Row(row) => assert_eq!(row, vec![1, 2]),
        _ => panic!("expected one row"),
    }
    match icon_grid(vec![1]) {
        IconGrid::Row(row) => assert_eq!(row, vec![1]),
        _ => panic!("expected one row"),
    }
    match icon_grid(vec![1, 2, 3, 4]) {
        IconGrid::Rows(a, b, rest) => {
            assert_eq!((a, b), (1, 2));
            assert_eq!(rest, vec![3, 4]);
        }
        _ => panic!("expected two rows"),
    }
    match icon_grid(vec![7, 8, 9]) {
        IconGrid::Rows(a, b, rest) => {
            assert_eq!((a, b), (7, 8));
            assert_eq!(rest, vec![9]);
        }
        _ => panic!("expected two rows"),
    }
}

#[test]
fn listener_messages_per_event() {
    assert_eq!(
        listener_messages(CompositorEvent::WorkspaceChanged),
        vec![HyprlandMessage::WorkspacesChanged, HyprlandMessage::MonitorsChanged]
    );
    for e in [CompositorEvent::WindowOpened, CompositorEvent::WindowMoved, CompositorEvent::WindowClosed] {
        assert_eq!(listener_messages(e), vec![HyprlandMessage::ClientsChanged]);
    }
}

#[test]
fn every_button_focuses_its_number() {
    let data = HyprlandData::new(vec![ws(5, 0), ws(1, 2), ws(10, 1)], vec![mon(0, 5)], vec![]);
    let column = workspaces(&data, &data.monitors[0]);
    for (k, b) in column.buttons.iter().enumerate() {
        assert_eq!(b.workspace, k as i32 + 1);
        assert_eq!(focus_workspace(b.workspace).argument, (k + 1).to_string());
    }
}
