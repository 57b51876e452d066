//! The state of one monitor as the backend sends it to the frontend.
use vstd::prelude::*;
use vstd::string::StringExecFns;

verus! {

/// The view of a window: its id, its icon (a `data:` URL) and its accent colour.
pub type WindowView = (u16, Seq<char>, u32);

/// The view of a container: the views of its windows, in order.
pub type ContainerView = Seq<WindowView>;

/// What the frontend draws for one monitor.
#[derive(Debug, PartialEq, Eq, Hash)]
pub struct AsayakeMonitorState {
    pub monitor_id: isize,
    pub focusing_workspace: usize,
    pub workspaces: Vec<WorkspaceForSend>,
    pub size: Rect,
}

/// One workspace: its containers, the rectangle of each, and whether it has the focus.
#[derive(Debug, PartialEq, Eq, Hash)]
pub struct WorkspaceForSend {
    pub items: Vec<ContainerForSend>,
    pub layout: Vec<Rect>,
    pub focusing: bool,
}

/// A container: a stack of windows that share one place on the screen.
#[derive(Debug, PartialEq, Eq, Hash)]
pub struct ContainerForSend {
    pub windows: Vec<WindowForSend>,
}

/// A window, with the icon and the accent colour that the frontend shows for it.
#[derive(Debug, PartialEq, Eq, Hash)]
pub struct WindowForSend {
    pub id: u16,
    pub icon: Icon,
    pub accent_color: u32,
}

/// An icon, as a base64 `data:` URL of a PNG image.
#[derive(Debug, PartialEq, Eq, Hash)]
pub struct Icon {
    pub base64_icon: String,
}

/// A rectangle on the screen, given by its top left and its bottom right corner.
#[derive(PartialEq, Eq, Debug, Clone, Copy, Hash)]
pub struct Rect {
    pub left_top: (u16, u16),
    pub right_bottom: (u16, u16),
}

/// The errors that the backend reports to the frontend.
#[derive(Debug, PartialEq, Eq, Clone, Copy)]
pub enum AsayakeError {
    DisconnectFromKomorebi,
}

impl View for Icon {
    type V = Seq<char>;

    open spec fn view(&self) -> Seq<char> {
        self.base64_icon@
    }
}

impl View for WindowForSend {
    type V = WindowView;

    open spec fn view(&self) -> WindowView {
        (self.id, self.icon@, self.accent_color)
    }
}

impl View for ContainerForSend {
    type V = ContainerView;

    open spec fn view(&self) -> ContainerView {
        self.windows@.map_values(|w: WindowForSend| w@)
    }
}

impl Clone for Icon {
    fn clone(&self) -> (res: Self)
        ensures
            res == *self,
    {
        Icon { base64_icon: self.base64_icon.clone() }
    }
}

impl Clone for WindowForSend {
    fn clone(&self) -> (res: Self)
        ensures
            res == *self,
    {
        WindowForSend { id: self.id, icon: self.icon.clone(), accent_color: self.accent_color }
    }
}

impl Clone for ContainerForSend {
    fn clone(&self) -> (res: Self)
        ensures
            res@ == self@,
    {
        let windows = self.windows.clone();
        assert forall|i: int| 0 <= i < windows.len() implies windows@[i] == self.windows@[i] by {
            assert(cloned::<WindowForSend>(self.windows@[i], windows@[i]));
        }
        let res = ContainerForSend { windows };
        assert(res@ =~= self@);
        res
    }
}

impl Default for AsayakeMonitorState {
    /// Monitor 0 of 1920 x 1080 pixels, with no workspace.
    fn default() -> (s: Self)
        ensures
            s.monitor_id == 0,
            s.focusing_workspace == 0,
            s.workspaces@.len() == 0,
            s.size == (Rect { left_top: (0, 0), right_bottom: (1920, 1080) }),
    {
        AsayakeMonitorState {
            monitor_id: 0,
            focusing_workspace: 0,
            workspaces: Vec::new(),
            size: Rect { left_top: (0, 0), right_bottom: (1920, 1080) },
        }
    }
}

impl Default for ContainerForSend {
    /// A container with no window.
    fn default() -> (c: Self)
        ensures
            c.windows@.len() == 0,
    {
        ContainerForSend { windows: Vec::new() }
    }
}

impl Default for WindowForSend {
    /// Window 0, with an empty icon and a white accent colour.
    fn default() -> (w: Self)
        ensures
            w.id == 0,
            w.icon@ == Seq::<char>::empty(),
            w.accent_color == 0xFFFFFF,
    {
        WindowForSend { id: 0, icon: Icon::default(), accent_color: 0xFFFFFF }
    }
}

impl Default for Icon {
    /// The empty icon.
    fn default() -> (i: Self)
        ensures
            i@ == Seq::<char>::empty(),
    {
        Icon { base64_icon: String::new() }
    }
}

impl AsayakeError {
    /// The message that the frontend shows for the error.
    pub fn message(&self) -> (s: String)
        ensures
            s@ == "Asayake is disconnected from komorebi.\n Is komorebi running?"@,
    {
        String::from_str("Asayake is disconnected from komorebi.\n Is komorebi running?")
    }
}

} // verus!
