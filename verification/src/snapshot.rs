//! From komorebi's state of a monitor to the state that the backend sends.
//!
//! The backend reads komorebi's state and the icon of every window; what it read is
//! held here as plain values, and turned into an `AsayakeMonitorState`.
use vstd::prelude::*;

use crate::backend::{BackendError, KomorebiLayout, LayoutForSend};
use crate::icon::{first_icon_error, icon_usable, window_shows_icon};
use crate::img::{ImgError, RgbaBitmap};
use crate::structs::{AsayakeMonitorState, ContainerForSend, Rect, WorkspaceForSend};

verus! {

/// A workspace as komorebi reports it: its containers (the id and the icon of each
/// window), its layout, and the rectangle of each container.
pub struct WorkspaceSnapshot {
    pub containers: Vec<Vec<(u16, RgbaBitmap)>>,
    pub layout: KomorebiLayout,
    pub rects: Vec<Rect>,
}

/// A monitor as komorebi reports it.
pub struct MonitorSnapshot {
    pub id: isize,
    pub focused_workspace_idx: usize,
    pub size: Rect,
    pub workspaces: Vec<WorkspaceSnapshot>,
}

/// Why komorebi's state of a monitor cannot be sent.
#[derive(Debug, PartialEq, Eq, Clone, Copy)]
pub enum ConvertError {
    /// The icon of a window cannot be shown.
    Icon(ImgError),
    /// A workspace has a layout that Asayake cannot draw.
    Layout(BackendError),
}

/// The first failure among the containers, where one fails.
pub open spec fn first_container_error(containers: Seq<Vec<(u16, RgbaBitmap)>>) -> Option<ImgError>
    decreases containers.len(),
{
    if containers.len() == 0 {
        None
    } else {
        match first_icon_error(containers[0]@) {
            Some(e) => Some(e),
            None => first_container_error(containers.drop_first()),
        }
    }
}

/// Why a workspace cannot be sent: the first container that fails, and otherwise a
/// custom layout.
pub open spec fn workspace_error(ws: WorkspaceSnapshot) -> Option<ConvertError> {
    match first_container_error(ws.containers@) {
        Some(e) => Some(ConvertError::Icon(e)),
        None => match ws.layout {
            KomorebiLayout::Custom => Some(ConvertError::Layout(BackendError::CustomLayout)),
            KomorebiLayout::Default(_) => None,
        },
    }
}

/// Why a monitor cannot be sent: the first workspace that fails.
pub open spec fn monitor_error(workspaces: Seq<WorkspaceSnapshot>) -> Option<ConvertError>
    decreases workspaces.len(),
{
    if workspaces.len() == 0 {
        None
    } else {
        match workspace_error(workspaces[0]) {
            Some(e) => Some(e),
            None => monitor_error(workspaces.drop_first()),
        }
    }
}

/// Every icon of the workspace has a pixel and fewer pixels than a `u32` counts.
pub open spec fn workspace_icons_usable(ws: WorkspaceSnapshot) -> bool {
    forall|i: int, j: int|
        0 <= i < ws.containers.len() && 0 <= j < ws.containers@[i].len() ==> icon_usable(
            #[trigger] ws.containers@[i]@[j].1@,
        )
}

/// The container shows the windows of `windows`, in order.
pub open spec fn container_shows(c: ContainerForSend, windows: Seq<(u16, RgbaBitmap)>) -> bool {
    &&& c.windows.len() == windows.len()
    &&& forall|i: int|
        0 <= i < windows.len() ==> window_shows_icon(
            #[trigger] c.windows@[i],
            windows[i].0,
            windows[i].1@,
        )
}

/// The workspace that is sent for a snapshot: its containers, its rectangles, and
/// whether it has the focus.
pub open spec fn workspace_shows(w: WorkspaceForSend, ws: WorkspaceSnapshot, focusing: bool) -> bool {
    &&& w.items.len() == ws.containers.len()
    &&& forall|i: int|
        0 <= i < ws.containers.len() ==> container_shows(#[trigger] w.items@[i], ws.containers@[i]@)
    &&& w.layout@ == ws.rects@
    &&& w.focusing == focusing
}

/// Copies a list of rectangles.
fn copy_rects(rects: &Vec<Rect>) -> (r: Vec<Rect>)
    ensures
        r@ == rects@,
{
    let mut r: Vec<Rect> = Vec::new();
    let mut i: usize = 0;
    while i < rects.len()
        invariant
            i <= rects.len(),
            r@ == rects@.take(i as int),
        decreases rects.len() - i,
    {
        r.push(rects[i]);
        assert(r@ =~= rects@.take(i + 1));
        i += 1;
    }
    assert(rects@.take(i as int) =~= rects@);
    r
}

impl WorkspaceForSend {
    /// The workspace that is sent for a snapshot. Its containers are converted first,
    /// in order, and the first failure is returned; then a custom layout is refused.
    pub fn try_from(value: &WorkspaceSnapshot, focusing: bool) -> (r: Result<
        WorkspaceForSend,
        ConvertError,
    >)
        requires
            workspace_icons_usable(*value),
        ensures
            r is Ok <==> workspace_error(*value) is None,
            r matches Err(e) ==> workspace_error(*value) == Some(e),
            r matches Ok(w) ==> workspace_shows(w, *value, focusing),
    {
        let mut container_for_send: Vec<ContainerForSend> = Vec::new();
        let mut i: usize = 0;
        assert(value.containers@.skip(0) =~= value.containers@);
        while i < value.containers.len()
            invariant
                workspace_icons_usable(*value),
                i <= value.containers.len(),
                container_for_send.len() == i,
                first_container_error(value.containers@) == first_container_error(
                    value.containers@.skip(i as int),
                ),
                forall|j: int|
                    0 <= j < i ==> container_shows(
                        #[trigger] container_for_send@[j],
                        value.containers@[j]@,
                    ),
            decreases value.containers.len() - i,
        {
            assert(value.containers@.skip(i as int).drop_first() =~= value.containers@.skip(i + 1));
            assert(value.containers@.skip(i as int)[0] == value.containers@[i as int]);
            let c = match ContainerForSend::from_icons(&value.containers[i]) {
                Ok(c) => c,
                Err(e) => {
                    return Err(ConvertError::Icon(e));
                },
            };
            container_for_send.push(c);
            i += 1;
        }
        assert(value.containers@.skip(i as int).len() == 0);
        match LayoutForSend::try_from(&value.layout) {
            Ok(_) => {},
            Err(e) => {
                return Err(ConvertError::Layout(e));
            },
        }
        Ok(WorkspaceForSend { items: container_for_send, layout: copy_rects(&value.rects), focusing })
    }
}

impl AsayakeMonitorState {
    /// The state that is sent for a monitor: its id, its focused workspace, its size,
    /// and its workspaces in order, the focused one marked. The first workspace that
    /// fails makes the monitor fail.
    pub fn try_from(value: &MonitorSnapshot) -> (r: Result<AsayakeMonitorState, ConvertError>)
        requires
            forall|i: int|
                0 <= i < value.workspaces.len() ==> workspace_icons_usable(
                    #[trigger] value.workspaces@[i],
                ),
        ensures
            r is Ok <==> monitor_error(value.workspaces@) is None,
            r matches Err(e) ==> monitor_error(value.workspaces@) == Some(e),
            r matches Ok(s) ==> {
                &&& s.monitor_id == value.id
                &&& s.focusing_workspace == value.focused_workspace_idx
                &&& s.size == value.size
                &&& s.workspaces.len() == value.workspaces.len()
                &&& forall|i: int|
                    0 <= i < value.workspaces.len() ==> workspace_shows(
                        #[trigger] s.workspaces@[i],
                        value.workspaces@[i],
                        i == value.focused_workspace_idx,
                    )
            },
    {
        let mut workspaces_for_send: Vec<WorkspaceForSend> = Vec::new();
        let mut i: usize = 0;
        assert(value.workspaces@.skip(0) =~= value.workspaces@);
        while i < value.workspaces.len()
            invariant
                forall|i: int|
                    0 <= i < value.workspaces.len() ==> workspace_icons_usable(
                        #[trigger] value.workspaces@[i],
                    ),
                i <= value.workspaces.len(),
                workspaces_for_send.len() == i,
                monitor_error(value.workspaces@) == monitor_error(value.workspaces@.skip(i as int)),
                forall|j: int|
                    0 <= j < i ==> workspace_shows(
                        #[trigger] workspaces_for_send@[j],
                        value.workspaces@[j],
                        j == value.focused_workspace_idx,
                    ),
            decreases value.workspaces.len() - i,
        {
            assert(value.workspaces@.skip(i as int).drop_first() =~= value.workspaces@.skip(i + 1));
            assert(value.workspaces@.skip(i as int)[0] == value.workspaces@[i as int]);
            let w = WorkspaceForSend::try_from(
                &value.workspaces[i],
                i == value.focused_workspace_idx,
            )?;
            workspaces_for_send.push(w);
            i += 1;
        }
        assert(value.workspaces@.skip(i as int).len() == 0);
        Ok(AsayakeMonitorState {
            monitor_id: value.id,
            focusing_workspace: value.focused_workspace_idx,
            workspaces: workspaces_for_send,
            size: value.size,
        })
    }
}

} // verus!
