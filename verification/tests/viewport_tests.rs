use image_guesser::control_panel::{ControlPanel, Mode};
use image_guesser::display_window::DisplayWindow;
use image_guesser::viewport::{
    handle_close_requested, handle_resize, handle_user_event, GuiImpl, MyEvent, Viewport,
    ViewportRegistry,
};

fn control_viewport() -> Viewport {
    Viewport { config_width: 1920, config_height: 1080, gui: GuiImpl::ControlPanel(ControlPanel::new()) }
}

fn display_viewport(texture: u64) -> Viewport {
    Viewport {
        config_width: 1920,
        config_height: 1080,
        gui: GuiImpl::DisplayWindow(DisplayWindow::new(texture)),
    }
}

#[test]
fn registry_insert_get_remove() {
    let mut reg = ViewportRegistry::new();
    assert!(reg.is_empty());
    reg.insert(1, control_viewport());
    reg.insert(2, display_viewport(9));
    assert_eq!(reg.len(), 2);
    assert!(reg.contains(1));
    assert!(reg.contains(2));
    assert!(!reg.contains(3));
    let vp = reg.get(2).expect("window 2 is registered");
    assert_eq!(vp.gui, GuiImpl::DisplayWindow(DisplayWindow::new(9)));
    reg.remove(1);
    assert!(!reg.contains(1));
    assert_eq!(reg.len(), 1);
    reg.remove(1);
    assert_eq!(reg.len(), 1);
    reg.clear();
    assert!(reg.is_empty());
}

#[test]
fn open_and_close_events_mutate_registry() {
    let mut reg = ViewportRegistry::new();
    handle_user_event(&mut reg, MyEvent::OpenWindow(5, control_viewport()));
    assert!(reg.contains(5));
    handle_user_event(&mut reg, MyEvent::OpenWindow(6, display_viewport(1)));
    assert_eq!(reg.len(), 2);
    handle_user_event(&mut reg, MyEvent::CloseWindow(6));
    assert!(!reg.contains(6));
    assert!(reg.contains(5));
}

#[test]
fn update_child_data_forwards_texture() {
    let mut reg = ViewportRegistry::new();
    reg.insert(5, control_viewport());
    reg.insert(6, display_viewport(1));
    handle_user_event(&mut reg, MyEvent::UpdateChildWindowData(6, 33));
    let vp = reg.get(6).expect("child still registered");
    match vp.gui {
        GuiImpl::DisplayWindow(dw) => assert_eq!(dw.texture, 33),
        GuiImpl::ControlPanel(_) => panic!("child is a display window"),
    }
    let root = reg.get(5).expect("root untouched");
    assert!(matches!(root.gui, GuiImpl::ControlPanel(_)));
}

#[test]
fn closing_child_notifies_root_panel() {
    let mut reg = ViewportRegistry::new();
    let mut cp = ControlPanel::new();
    cp.set_mode(Mode::Full);
    cp.record_child_opened(6);
    reg.insert(5, Viewport { config_width: 800, config_height: 600, gui: GuiImpl::ControlPanel(cp) });
    reg.insert(6, display_viewport(1));
    let exit = handle_close_requested(&mut reg, 6, 5);
    assert!(!exit, "the root window is still open");
    assert!(!reg.contains(6));
    let root = reg.get(5).expect("root stays registered");
    match root.gui {
        GuiImpl::ControlPanel(cp) => {
            assert_eq!(cp.child_window_id, None);
            assert_eq!(cp.mode, Mode::Compact);
        }
        GuiImpl::DisplayWindow(_) => panic!("root is the control panel"),
    }
}

#[test]
fn closing_root_tears_everything_down() {
    let mut reg = ViewportRegistry::new();
    reg.insert(5, control_viewport());
    reg.insert(6, display_viewport(1));
    let exit = handle_close_requested(&mut reg, 5, 5);
    assert!(exit);
    assert_eq!(reg.len(), 0);
}

#[test]
fn resize_applies_and_ignores_minimize() {
    let mut reg = ViewportRegistry::new();
    reg.insert(5, control_viewport());
    assert!(handle_resize(&mut reg, 5, 800, 600));
    let vp = reg.get(5).expect("registered");
    assert_eq!((vp.config_width, vp.config_height), (800, 600));
    assert!(!handle_resize(&mut reg, 5, 0, 600), "zero size is the minimize signal");
    let vp = reg.get(5).expect("registered");
    assert_eq!((vp.config_width, vp.config_height), (800, 600));
    assert!(!handle_resize(&mut reg, 9, 640, 480), "unknown windows are ignored");
}
