use asayake::structs::{
    AsayakeError, AsayakeMonitorState, ContainerForSend, Icon, Rect, WindowForSend,
};

#[test]
fn defaults() {
    let s = AsayakeMonitorState::default();
    assert_eq!(s.monitor_id, 0);
    assert_eq!(s.focusing_workspace, 0);
    assert!(s.workspaces.is_empty());
    assert_eq!(s.size, Rect { left_top: (0, 0), right_bottom: (1920, 1080) });
    assert!(ContainerForSend::default().windows.is_empty());
    let w = WindowForSend::default();
    assert_eq!((w.id, w.accent_color), (0, 0xFFFFFF));
    assert_eq!(w.icon, Icon::default());
    assert_eq!(Icon::default().base64_icon, "");
}

#[test]
fn clones_are_equal() {
    let c = ContainerForSend {
        windows: vec![WindowForSend { id: 3, icon: Icon { base64_icon: "x".into() }, accent_color: 5 }],
    };
    assert_eq!(c.clone(), c);
}

#[test]
fn error_message() {
    assert_eq!(
        AsayakeError::DisconnectFromKomorebi.message(),
        "Asayake is disconnected from komorebi.\n Is komorebi running?"
    );
}
