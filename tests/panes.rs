use mavsnark::panes::{doc_url, App, Key, Panel};
use mavsnark::record::MavMsg;

fn make_app_with_stream_entries(n: usize) -> App {
    let mut app = App::new();
    for i in 0..n {
        app.push(MavMsg::new(i as u8, 1, "HEARTBEAT".to_string(), "custom_mode: 0".to_string(), 0));
    }
    app
}

#[test]
fn quit_on_q() {
    let mut app = App::new();
    assert!(app.handle_key(Key::Quit, 10));
}

#[test]
fn quit_on_esc() {
    let mut app = App::new();
    assert!(app.handle_key(Key::Quit, 10));
}

#[test]
fn j_moves_down() {
    let mut app = make_app_with_stream_entries(5);
    app.handle_key(Key::Down, 10);
    assert_eq!(app.stream_scroll.selected, 1);
}

#[test]
fn k_moves_up() {
    let mut app = make_app_with_stream_entries(5);
    app.handle_key(Key::Down, 10);
    app.handle_key(Key::Down, 10);
    app.handle_key(Key::Up, 10);
    assert_eq!(app.stream_scroll.selected, 1);
}

#[test]
fn tab_toggles_panel() {
    let mut app = App::new();
    assert_eq!(app.active_panel, Panel::Stream);
    app.handle_key(Key::SwitchPanel, 10);
    assert_eq!(app.active_panel, Panel::Events);
    app.handle_key(Key::SwitchPanel, 10);
    assert_eq!(app.active_panel, Panel::Stream);
}

#[test]
fn g_selects_top() {
    let mut app = make_app_with_stream_entries(5);
    app.handle_key(Key::Down, 10);
    app.handle_key(Key::Down, 10);
    app.handle_key(Key::Top, 10);
    assert_eq!(app.stream_scroll.selected, 0);
}

#[test]
fn big_g_selects_bottom() {
    let mut app = make_app_with_stream_entries(5);
    app.handle_key(Key::Bottom, 10);
    assert_eq!(app.stream_scroll.selected, 4);
}

#[test]
fn keys_move_only_the_active_pane() {
    let mut app = make_app_with_stream_entries(5);
    app.push(MavMsg::new(1, 1, "COMMAND_LONG".to_string(), String::new(), 0));
    app.push(MavMsg::new(1, 1, "COMMAND_ACK".to_string(), String::new(), 0));
    app.handle_key(Key::SwitchPanel, 10);
    assert!(!app.handle_key(Key::Down, 10));
    assert_eq!(app.events_scroll.selected, 1);
    assert_eq!(app.stream_scroll.selected, 0);
    assert_eq!(app.active_total(), 2);
    assert_eq!(app.selected_name(), Some("COMMAND_ACK"));
    app.handle_key(Key::PageUp, 10);
    assert_eq!(app.events_scroll.selected, 0);
    assert!(!app.events_scroll.auto_scroll);
    app.handle_key(Key::PageDown, 10);
    assert_eq!(app.events_scroll.selected, 1);
    assert!(app.events_scroll.auto_scroll);
    app.handle_key(Key::Other, 10);
    assert_eq!(app.events_scroll.selected, 1);
}

#[test]
fn redraw_follows_both_panes() {
    let mut app = make_app_with_stream_entries(7);
    app.push(MavMsg::new(1, 1, "COMMAND_LONG".to_string(), String::new(), 0));
    app.auto_follow(3, 10);
    assert_eq!((app.stream_scroll.selected, app.stream_scroll.offset), (6, 4));
    assert_eq!((app.events_scroll.selected, app.events_scroll.offset), (0, 0));
    assert_eq!(app.selected_name(), Some("HEARTBEAT"));
}

#[test]
fn selected_name_of_empty_pane_is_none() {
    let app = App::new();
    assert_eq!(app.selected_name(), None);
}

#[test]
fn doc_url_points_at_message_anchor() {
    assert_eq!(doc_url("HEARTBEAT"), "https://mavlink.io/en/messages/common.html#HEARTBEAT");
}
