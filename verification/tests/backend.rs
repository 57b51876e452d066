use asayake::backend::{
    alt_state, alt_step, alt_window_action, greet, Action, BackendError, DefaultLayout,
    InputEvent, KomorebiLayout, LayoutForSend, Vk, WindowAction,
};

#[test]
fn alt_press_and_release() {
    let press = InputEvent::Keyboard { vk: Vk::Alt, action: Action::Press };
    let release = InputEvent::Keyboard { vk: Vk::Alt, action: Action::Release };
    let other_key = InputEvent::Keyboard { vk: Vk::Other, action: Action::Press };
    assert!(alt_state(&press, &false));
    assert!(!alt_state(&release, &true));
    assert!(alt_state(&other_key, &true));
    assert!(!alt_state(&InputEvent::Other, &false));
    assert!(alt_state(&press, &alt_state(&press, &false)));
}

#[test]
fn alt_loop_shows_and_hides() {
    let press = InputEvent::Keyboard { vk: Vk::Alt, action: Action::Press };
    let release = InputEvent::Keyboard { vk: Vk::Alt, action: Action::Release };
    assert_eq!(alt_step(&press, false), (true, WindowAction::Show));
    assert_eq!(alt_step(&press, true), (true, WindowAction::Keep));
    assert_eq!(alt_step(&release, true), (false, WindowAction::Hide));
    assert_eq!(alt_step(&InputEvent::Other, false), (false, WindowAction::Keep));
    assert_eq!(alt_window_action(false, false), WindowAction::Keep);
}

#[test]
fn layout_conversion() {
    assert_eq!(
        LayoutForSend::try_from(&KomorebiLayout::Default(DefaultLayout::BSP)),
        Ok(LayoutForSend::Default(DefaultLayout::BSP))
    );
    assert_eq!(
        LayoutForSend::try_from(&KomorebiLayout::Default(DefaultLayout::RightMainVerticalStack)),
        Ok(LayoutForSend::Default(DefaultLayout::RightMainVerticalStack))
    );
    assert_eq!(
        LayoutForSend::try_from(&KomorebiLayout::Custom),
        Err(BackendError::CustomLayout)
    );
    assert_eq!(
        BackendError::CustomLayout.message(),
        "Unable to parse custom layout, asayake still doesn't have compatibility for custom layout"
    );
}

#[test]
fn greeting() {
    assert_eq!(greet("Asayake"), "Hello, Asayake! You've been greeted from Rust!");
}
