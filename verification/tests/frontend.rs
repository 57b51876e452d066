use asayake::frontend::{apply_payload, container_style, visible_workspaces, workspace_item_styles, ViewState};
use asayake::structs::{
    AsayakeError, AsayakeMonitorState, ContainerForSend, Icon, Rect, WindowForSend, WorkspaceForSend,
};

fn workspace(n_items: usize, layout: Vec<Rect>) -> WorkspaceForSend {
    WorkspaceForSend {
        items: (0..n_items).map(|_| ContainerForSend::default()).collect(),
        layout,
        focusing: false,
    }
}

#[test]
fn payload_replaces_state_and_error_resets_it() {
    let view = ViewState { monitor: AsayakeMonitorState::default(), error: None };
    let mut state = AsayakeMonitorState::default();
    state.monitor_id = 4;
    let view = apply_payload(view, Ok(state));
    assert_eq!(view.monitor.monitor_id, 4);
    assert_eq!(view.error, None);
    let view = apply_payload(view, Err(AsayakeError::DisconnectFromKomorebi));
    assert_eq!(view.monitor, AsayakeMonitorState::default());
    assert_eq!(view.error, Some(AsayakeError::DisconnectFromKomorebi));
    let mut state = AsayakeMonitorState::default();
    state.focusing_workspace = 1;
    let view = apply_payload(view, Ok(state));
    assert_eq!(view.monitor.focusing_workspace, 1);
    assert_eq!(view.error, Some(AsayakeError::DisconnectFromKomorebi));
}

#[test]
fn only_workspaces_with_containers_are_drawn() {
    let mut state = AsayakeMonitorState::default();
    state.workspaces = vec![workspace(0, vec![]), workspace(2, vec![]), workspace(0, vec![]), workspace(1, vec![])];
    assert_eq!(visible_workspaces(&state), vec![1, 3]);
}

#[test]
fn container_border() {
    let c = ContainerForSend {
        windows: vec![WindowForSend { id: 1, icon: Icon::default(), accent_color: 0xFFFFFF }],
    };
    assert_eq!(container_style(&c), "border-color:#16777215;");
}

#[test]
fn item_styles_follow_the_layout() {
    let w = workspace(
        3,
        vec![
            Rect { left_top: (0, 0), right_bottom: (1, 1) },
            Rect { left_top: (1, 0), right_bottom: (2, 1) },
        ],
    );
    assert_eq!(
        workspace_item_styles(&w, (1, 1)),
        vec![
            "grid-row: 1 / 1;grid-column: 1 / 1".to_string(),
            "grid-row: 1 / 1;grid-column: 2 / 2".to_string()
        ]
    );
}
