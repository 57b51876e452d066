//! The decisions of the frontend: which state it shows after an event from the
//! backend, which workspaces it draws, and the styles of their elements.
use vstd::prelude::*;
use vstd::string::StringExecFns;

use crate::grid::{calc_grid_child, grid_child_defined, grid_child_style};
use crate::structs::{AsayakeError, AsayakeMonitorState, ContainerForSend, Rect, WorkspaceForSend};
use crate::text::{decimal, push_decimal};

verus! {

/// What the frontend shows: the state of the monitor, and the last error, if any.
pub struct ViewState {
    pub monitor: AsayakeMonitorState,
    pub error: Option<AsayakeError>,
}

/// The view after the backend sent `payload`. A state replaces the shown state and
/// leaves the error as it was; an error is shown, beside the default state.
pub fn apply_payload(view: ViewState, payload: Result<AsayakeMonitorState, AsayakeError>) -> (r:
    ViewState)
    ensures
        payload matches Ok(state) ==> r.monitor == state && r.error == view.error,
        payload matches Err(err) ==> r.error == Some(err) && r.monitor.monitor_id == 0
            && r.monitor.focusing_workspace == 0 && r.monitor.workspaces@.len() == 0
            && r.monitor.size == (Rect { left_top: (0, 0), right_bottom: (1920, 1080) }),
{
    match payload {
        Ok(state) => ViewState { monitor: state, error: view.error },
        Err(err) => ViewState { monitor: AsayakeMonitorState::default(), error: Some(err) },
    }
}

/// The indices of the workspaces that hold a container, in order: the frontend draws
/// only those.
pub fn visible_workspaces(state: &AsayakeMonitorState) -> (r: Vec<usize>)
    ensures
        forall|i: int| 0 <= i < r.len() ==> #[trigger] r@[i] < state.workspaces.len()
            && state.workspaces@[r@[i] as int].items.len() > 0,
        forall|i: int, j: int| 0 <= i < j < r.len() ==> r@[i] < r@[j],
        forall|k: int|
            0 <= k < state.workspaces.len() && #[trigger] state.workspaces@[k].items.len() > 0
                ==> r@.contains(k as usize),
{
    let mut r: Vec<usize> = Vec::new();
    let mut i: usize = 0;
    while i < state.workspaces.len()
        invariant
            i <= state.workspaces.len(),
            forall|a: int| 0 <= a < r.len() ==> #[trigger] r@[a] < i
                && state.workspaces@[r@[a] as int].items.len() > 0,
            forall|a: int, b: int| 0 <= a < b < r.len() ==> r@[a] < r@[b],
            forall|k: int|
                0 <= k < i && #[trigger] state.workspaces@[k].items.len() > 0 ==> r@.contains(
                    k as usize,
                ),
        decreases state.workspaces.len() - i,
    {
        let ghost prev = r@;
        if state.workspaces[i].items.len() > 0 {
            r.push(i);
        }
        assert forall|k: int|
            0 <= k < i + 1 && #[trigger] state.workspaces@[k].items.len() > 0 implies r@.contains(
                k as usize,
            ) by {
            if k == i {
                assert(r@[r.len() - 1] == i);
            } else {
                let a = choose|a: int| 0 <= a < prev.len() && prev[a] == k as usize;
                assert(r@[a] == k as usize);
            }
        }
        i += 1;
    }
    r
}

/// The style of a container element: a border in the accent colour of its first
/// window, written in decimal.
pub fn container_style(container: &ContainerForSend) -> (s: String)
    requires
        container.windows.len() > 0,
    ensures
        s@ == "border-color:#"@ + decimal(container.windows@[0].accent_color as nat) + ";"@,
{
    let mut s = String::from_str("border-color:#");
    push_decimal(&mut s, container.windows[0].accent_color as u64);
    s.append(";");
    s
}

/// The styles that place the containers of a workspace in its grid, whose cells are
/// `min.0` wide and `min.1` high: the `i`-th container gets the `i`-th rectangle, and
/// containers without a rectangle (or rectangles without a container) are not drawn.
pub fn workspace_item_styles(workspace: &WorkspaceForSend, min: (u16, u16)) -> (r: Vec<String>)
    requires
        forall|i: int|
            0 <= i < workspace.items.len() && 0 <= i < workspace.layout.len() ==> grid_child_defined(
                min,
                #[trigger] workspace.layout@[i],
            ),
    ensures
        r.len() == if workspace.items.len() < workspace.layout.len() {
            workspace.items.len()
        } else {
            workspace.layout.len()
        },
        forall|i: int| 0 <= i < r.len() ==> #[trigger] r@[i]@ == grid_child_style(min, workspace.layout@[i]),
{
    let n: usize = if workspace.items.len() < workspace.layout.len() {
        workspace.items.len()
    } else {
        workspace.layout.len()
    };
    let mut r: Vec<String> = Vec::new();
    let mut i: usize = 0;
    while i < n
        invariant
            n <= workspace.items.len(),
            n <= workspace.layout.len(),
            forall|i: int|
                0 <= i < workspace.items.len() && 0 <= i < workspace.layout.len() ==> grid_child_defined(
                    min,
                    #[trigger] workspace.layout@[i],
                ),
            i <= n,
            r.len() == i,
            forall|j: int| 0 <= j < i ==> #[trigger] r@[j]@ == grid_child_style(min, workspace.layout@[j]),
        decreases n - i,
    {
        let style = calc_grid_child(&min, &workspace.layout[i]);
        r.push(style);
        i += 1;
    }
    r
}

} // verus!
