//! The decisions of the backend: which layout komorebi reports, whether the Alt key is
//! held, and whether the bar is shown.
use vstd::prelude::*;
use vstd::string::StringExecFns;

verus! {

/// The layouts that komorebi ships with.
#[derive(Debug, PartialEq, Eq, Clone, Copy, Hash)]
pub enum DefaultLayout {
    BSP,
    Columns,
    Rows,
    VerticalStack,
    HorizontalStack,
    UltrawideVerticalStack,
    Grid,
    RightMainVerticalStack,
}

/// The layout of a workspace as the frontend knows it.
#[derive(Debug, PartialEq, Eq, Clone, Copy, Hash)]
pub enum LayoutForSend {
    Default(DefaultLayout),
}

/// The layout of a workspace as komorebi reports it: one of its own layouts, or a
/// custom layout read from a file.
#[derive(Debug, PartialEq, Eq, Clone, Copy)]
pub enum KomorebiLayout {
    Default(DefaultLayout),
    Custom,
}

/// Why komorebi's state cannot be shown.
#[derive(Debug, PartialEq, Eq, Clone, Copy)]
pub enum BackendError {
    /// The workspace has a custom layout, which Asayake cannot draw.
    CustomLayout,
}

impl BackendError {
    /// The message of the error.
    pub fn message(&self) -> (s: String)
        ensures
            s@ == "Unable to parse custom layout, asayake still doesn't have compatibility for custom layout"@,
    {
        String::from_str(
            "Unable to parse custom layout, asayake still doesn't have compatibility for custom layout",
        )
    }
}

impl LayoutForSend {
    /// The layout of komorebi's kind as the frontend knows it; custom layouts have none.
    pub fn try_from(value: &KomorebiLayout) -> (r: Result<LayoutForSend, BackendError>)
        ensures
            match *value {
                KomorebiLayout::Default(kind) => r == Ok::<LayoutForSend, BackendError>(
                    LayoutForSend::Default(kind),
                ),
                KomorebiLayout::Custom => r == Err::<LayoutForSend, BackendError>(
                    BackendError::CustomLayout,
                ),
            },
    {
        match value {
            KomorebiLayout::Default(default_layout_kind) => Ok(
                LayoutForSend::Default(
                    match default_layout_kind {
                        DefaultLayout::BSP => DefaultLayout::BSP,
                        DefaultLayout::Columns => DefaultLayout::Columns,
                        DefaultLayout::Rows => DefaultLayout::Rows,
                        DefaultLayout::VerticalStack => DefaultLayout::VerticalStack,
                        DefaultLayout::HorizontalStack => DefaultLayout::HorizontalStack,
                        DefaultLayout::UltrawideVerticalStack => DefaultLayout::UltrawideVerticalStack,
                        DefaultLayout::Grid => DefaultLayout::Grid,
                        DefaultLayout::RightMainVerticalStack => DefaultLayout::RightMainVerticalStack,
                    },
                ),
            ),
            KomorebiLayout::Custom => Err(BackendError::CustomLayout),
        }
    }
}

/// A virtual key, as far as the bar cares: Alt, or another key.
#[derive(Debug, PartialEq, Eq, Clone, Copy)]
pub enum Vk {
    Alt,
    Other,
}

/// Whether a key went down or up.
#[derive(Debug, PartialEq, Eq, Clone, Copy)]
pub enum Action {
    Press,
    Release,
}

/// An event of the input message loop.
#[derive(Debug, PartialEq, Eq, Clone, Copy)]
pub enum InputEvent {
    Keyboard { vk: Vk, action: Action },
    Other,
}

/// Whether the Alt key is held after `event`, given whether it was held before.
pub open spec fn spec_alt_state(event: InputEvent, old_state: bool) -> bool {
    match event {
        InputEvent::Keyboard { vk: Vk::Alt, action: Action::Press } => true,
        InputEvent::Keyboard { vk: Vk::Alt, action: Action::Release } => false,
        _ => old_state,
    }
}

/// The state of the Alt key after the next input event: pressing Alt holds it,
/// releasing Alt lets it go, and every other event leaves it as it was.
pub fn alt_state(event: &InputEvent, old_state: &bool) -> (r: bool)
    ensures
        r == spec_alt_state(*event, *old_state),
{
    match event {
        InputEvent::Keyboard { vk: Vk::Alt, action } => match action {
            Action::Press => true,
            Action::Release => false,
        },
        _ => *old_state,
    }
}

/// What to do with the bar's window.
#[derive(Debug, PartialEq, Eq, Clone, Copy)]
pub enum WindowAction {
    Show,
    Hide,
    Keep,
}

/// The bar is shown while Alt is held: when the state of Alt changes, the window is
/// shown (Alt went down) or hidden (Alt went up); otherwise it is left alone.
pub fn alt_window_action(old_state: bool, state: bool) -> (a: WindowAction)
    ensures
        old_state == state ==> a == WindowAction::Keep,
        old_state != state && state ==> a == WindowAction::Show,
        old_state != state && !state ==> a == WindowAction::Hide,
{
    if old_state != state {
        if state {
            WindowAction::Show
        } else {
            WindowAction::Hide
        }
    } else {
        WindowAction::Keep
    }
}

/// A step of the Alt key loop: the new state of Alt and what to do with the window.
pub fn alt_step(event: &InputEvent, old_state: bool) -> (r: (bool, WindowAction))
    ensures
        r.0 == spec_alt_state(*event, old_state),
        r.0 == old_state ==> r.1 == WindowAction::Keep,
        r.0 != old_state && r.0 ==> r.1 == WindowAction::Show,
        r.0 != old_state && !r.0 ==> r.1 == WindowAction::Hide,
{
    let state = alt_state(event, &old_state);
    (state, alt_window_action(old_state, state))
}

/// An event other than a press or release of Alt changes nothing, and a second press or
/// release of Alt changes nothing more than the first.
pub proof fn lemma_alt_state_settles(event: InputEvent, old_state: bool)
    ensures
        !(event matches InputEvent::Keyboard { vk: Vk::Alt, .. }) ==> spec_alt_state(event, old_state)
            == old_state,
        spec_alt_state(event, spec_alt_state(event, old_state)) == spec_alt_state(event, old_state),
{
}

/// The greeting of the `greet` command.
pub fn greet(name: &str) -> (s: String)
    ensures
        s@ == "Hello, "@ + name@ + "! You've been greeted from Rust!"@,
{
    let mut s = String::from_str("Hello, ");
    s.append(name);
    s.append("! You've been greeted from Rust!");
    s
}

} // verus!
