use asayake::backend::{BackendError, DefaultLayout, KomorebiLayout};
use asayake::img::{ImgError, RgbaBitmap};
use asayake::snapshot::{ConvertError, MonitorSnapshot, WorkspaceSnapshot};
use asayake::structs::{AsayakeMonitorState, Rect, WorkspaceForSend};

fn icon(rgba: [u8; 4]) -> RgbaBitmap {
    RgbaBitmap::from_raw(1, 1, rgba.to_vec()).unwrap()
}

fn rect(x: u16) -> Rect {
    Rect { left_top: (x, 0), right_bottom: (x + 10, 10) }
}

fn workspace(layout: KomorebiLayout) -> WorkspaceSnapshot {
    WorkspaceSnapshot {
        containers: vec![vec![(1, icon([1, 2, 3, 255])), (2, icon([4, 5, 6, 255]))], vec![(3, icon([7, 8, 9, 255]))]],
        layout,
        rects: vec![rect(0), rect(10)],
    }
}

#[test]
fn workspace_from_snapshot() {
    let w = WorkspaceForSend::try_from(&workspace(KomorebiLayout::Default(DefaultLayout::Columns)), true).unwrap();
    assert_eq!(w.items.len(), 2);
    assert_eq!(w.items[0].windows.len(), 2);
    assert_eq!(w.items[0].windows[1].accent_color, 0x040506);
    assert_eq!(w.items[1].windows[0].id, 3);
    assert_eq!(w.layout, vec![rect(0), rect(10)]);
    assert!(w.focusing);
}

#[test]
fn custom_layout_is_refused() {
    assert_eq!(
        WorkspaceForSend::try_from(&workspace(KomorebiLayout::Custom), false).unwrap_err(),
        ConvertError::Layout(BackendError::CustomLayout)
    );
}

#[test]
fn icon_error_comes_before_layout_error() {
    let mut ws = workspace(KomorebiLayout::Custom);
    ws.containers[1].push((4, RgbaBitmap::from_raw(0, 0, vec![]).unwrap()));
    assert_eq!(
        WorkspaceForSend::try_from(&ws, false).unwrap_err(),
        ConvertError::Icon(ImgError::PngEncoding)
    );
}

#[test]
fn monitor_from_snapshot() {
    let monitor = MonitorSnapshot {
        id: 65537,
        focused_workspace_idx: 1,
        size: Rect { left_top: (0, 0), right_bottom: (2560, 1440) },
        workspaces: vec![
            workspace(KomorebiLayout::Default(DefaultLayout::BSP)),
            workspace(KomorebiLayout::Default(DefaultLayout::Grid)),
        ],
    };
    let s = AsayakeMonitorState::try_from(&monitor).unwrap();
    assert_eq!(s.monitor_id, 65537);
    assert_eq!(s.focusing_workspace, 1);
    assert_eq!(s.size, Rect { left_top: (0, 0), right_bottom: (2560, 1440) });
    assert_eq!(s.workspaces.len(), 2);
    assert!(!s.workspaces[0].focusing);
    assert!(s.workspaces[1].focusing);

    let mut monitor = monitor;
    monitor.workspaces.push(workspace(KomorebiLayout::Custom));
    assert_eq!(
        AsayakeMonitorState::try_from(&monitor).unwrap_err(),
        ConvertError::Layout(BackendError::CustomLayout)
    );
}
