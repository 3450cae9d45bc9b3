use deepin_sticky_notes::theme::is_dark_output;
use deepin_sticky_notes::tray::{Action, TrayClicks, TrayMenu};

fn menu() -> TrayMenu {
    TrayMenu {
        new_id: "new".into(),
        show_id: "show".into(),
        hide_id: "hide".into(),
        quit_id: "quit".into(),
    }
}

#[test]
fn menu_events_map_to_actions() {
    let m = menu();
    assert_eq!(m.action("new"), Some(Action::New));
    assert_eq!(m.action("show"), Some(Action::ShowAll));
    assert_eq!(m.action("hide"), Some(Action::HideAll));
    assert_eq!(m.action("quit"), Some(Action::Quit));
    assert_eq!(m.action("other"), None);
}

#[test]
fn tray_double_click_and_single_click() {
    let mut c = TrayClicks::new();
    assert!(!c.click(1000));
    assert_eq!(c.pending, Some(1000));
    assert!(!c.poll(1200));
    assert!(c.click(1349));
    assert_eq!(c.pending, None);
    assert!(!c.click(2000));
    assert!(!c.click(2350));
    assert_eq!(c.pending, Some(2350));
    assert!(c.poll(2700));
    assert_eq!(c.pending, None);
    assert!(!c.poll(9000));
}

#[test]
fn dark_theme_from_gsettings_output() {
    assert!(is_dark_output(true, "'prefer-dark'\n"));
    assert!(!is_dark_output(false, "'prefer-dark'\n"));
    assert!(!is_dark_output(true, "'default'\n"));
    assert!(!is_dark_output(true, ""));
    assert!(!is_dark_output(true, "prefer-dar"));
}
