use portwatch::signals::Signal;
use portwatch::tui::{Action, App, KeyCode, Mode};
use portwatch::types::{PortProc, Proto};

fn record(proto: Proto, addr: &str, pid: u32, name: &str) -> PortProc {
    PortProc {
        proto,
        local_address: addr.to_string(),
        pid,
        proc_name: name.to_string(),
        state: Some("LISTEN".to_string()),
    }
}

fn sample() -> Vec<PortProc> {
    vec![
        record(Proto::Tcp, "127.0.0.1:3000", 27264, "ruby"),
        record(Proto::Udp, "224.0.0.251:5353", 2440, "chromium"),
        record(Proto::Tcp, "[::1]:8080", 900, "nginx"),
    ]
}

fn names(app: &App) -> Vec<String> {
    app.filtered_items().iter().map(|p| p.proc_name.clone()).collect()
}

#[test]
fn q_quits_in_normal_mode() {
    let mut app = App::new(sample());
    assert!(matches!(app.handle_key(KeyCode::Char('q')), Action::Quit));
    assert!(matches!(app.mode, Mode::Normal));
}

#[test]
fn j_and_k_move_and_undo() {
    let mut app = App::new(sample());
    assert!(matches!(app.handle_key(KeyCode::Char('j')), Action::Continue));
    assert_eq!(app.selected, 1);
    app.handle_key(KeyCode::Char('k'));
    assert_eq!(app.selected, 0);
    app.handle_key(KeyCode::Up);
    assert_eq!(app.selected, 2);
    app.handle_key(KeyCode::Down);
    assert_eq!(app.selected, 0);
}

#[test]
fn filter_mode_edits_the_filter() {
    let mut app = App::new(sample());
    app.handle_key(KeyCode::Char('j'));
    app.handle_key(KeyCode::Char('/'));
    assert!(matches!(app.mode, Mode::Filter));
    app.handle_key(KeyCode::Char('R'));
    app.handle_key(KeyCode::Char('U'));
    assert_eq!(app.filter, "RU");
    assert_eq!(app.selected, 0);
    // the filter is matched case-insensitively
    assert_eq!(names(&app), vec!["ruby".to_string()]);
    app.handle_key(KeyCode::Backspace);
    assert_eq!(app.filter, "R");
    app.handle_key(KeyCode::Enter);
    assert!(matches!(app.mode, Mode::Normal));
    assert_eq!(app.filter, "R");
    app.handle_key(KeyCode::Esc);
    assert_eq!(app.filter, "");
    assert_eq!(names(&app).len(), 3);
}

#[test]
fn backspace_on_empty_filter_keeps_it_empty() {
    let mut app = App::new(sample());
    app.handle_key(KeyCode::Char('/'));
    app.handle_key(KeyCode::Backspace);
    assert_eq!(app.filter, "");
    app.handle_key(KeyCode::Esc);
    assert!(matches!(app.mode, Mode::Normal));
}

#[test]
fn filter_matches_pid_port_address_and_protocol() {
    let mut app = App::new(sample());
    app.filter = "900".to_string();
    assert_eq!(names(&app), vec!["nginx".to_string()]);
    app.filter = "5353".to_string();
    assert_eq!(names(&app), vec!["chromium".to_string()]);
    app.filter = "[::1]".to_string();
    assert_eq!(names(&app), vec!["nginx".to_string()]);
    app.filter = "UDP".to_string();
    assert_eq!(names(&app), vec!["chromium".to_string()]);
    app.filter = "tcp".to_string();
    assert_eq!(names(&app), vec!["ruby".to_string(), "nginx".to_string()]);
    app.filter = "nothing".to_string();
    assert!(names(&app).is_empty());
    assert_eq!(app.filtered_len(), 0);
}

#[test]
fn help_scrolls_within_bounds() {
    let mut app = App::new(sample());
    app.handle_key(KeyCode::Char('?'));
    assert_eq!(app.mode, Mode::Help { scroll: 0 });
    app.handle_key(KeyCode::Char('k'));
    assert_eq!(app.mode, Mode::Help { scroll: 0 });
    for _ in 0..100 {
        app.handle_key(KeyCode::Char('j'));
    }
    // the help text has 15 lines; it scrolls 10 lines at most
    assert_eq!(app.mode, Mode::Help { scroll: 10 });
    app.handle_key(KeyCode::Up);
    assert_eq!(app.mode, Mode::Help { scroll: 9 });
    app.handle_key(KeyCode::Char('?'));
    assert!(matches!(app.mode, Mode::Normal));
}

#[test]
fn signal_goes_out_only_after_y() {
    let mut app = App::new(sample());
    assert!(matches!(app.handle_key(KeyCode::Char('y')), Action::Continue));
    app.handle_key(KeyCode::Char('j'));
    app.handle_key(KeyCode::Char('s'));
    assert!(matches!(app.handle_key(KeyCode::Char('y')), Action::Continue));
    app.handle_key(KeyCode::Up);
    app.handle_key(KeyCode::Enter);
    assert!(matches!(app.mode, Mode::SignalConfirm));
    assert!(matches!(app.handle_key(KeyCode::Char('x')), Action::Continue));
    match app.handle_key(KeyCode::Char('y')) {
        Action::Send(p) => {
            assert_eq!(p.pid, 2440);
            assert_eq!(p.proc_name, "chromium");
            // the entry above SIGTERM in number order
            assert_eq!(p.signal, Signal::SIGUSR2);
            assert_eq!(p.signal_name, "SIGUSR2");
        }
        _ => panic!("Expected a signal to send"),
    }
    assert!(matches!(app.mode, Mode::Normal));
    assert!(app.pending_signal.is_none());
}

#[test]
fn escape_leaves_signal_list() {
    let mut app = App::new(sample());
    app.handle_key(KeyCode::Char('s'));
    app.handle_key(KeyCode::Esc);
    assert!(matches!(app.mode, Mode::Normal));
    assert!(app.pending_signal.is_none());
}

#[test]
fn no_confirmation_without_a_shown_record() {
    let mut app = App::new(vec![]);
    app.open_signal_selection();
    app.request_signal_confirmation();
    assert!(matches!(app.mode, Mode::SignalSelect { .. }));
    assert!(app.pending_signal.is_none());
}

#[test]
fn refresh_clamps_to_all_records_when_none_is_shown() {
    let mut app = App::new(sample());
    app.filter = "nothing".to_string();
    app.selected = 7;
    app.refresh_items(sample());
    assert_eq!(app.selected, 2);
    app.filter = "tcp".to_string();
    app.selected = 5;
    app.refresh_items(sample());
    assert_eq!(app.selected, 1);
    app.selected = 0;
    app.refresh_items(vec![]);
    assert_eq!(app.selected, 0);
}

#[test]
fn status_message_expires_after_three_seconds() {
    let mut app = App::new(sample());
    app.set_status("Sent".to_string(), 1_000);
    app.clear_expired_status(3_000_001_000);
    assert!(app.status_message.is_some());
    app.clear_expired_status(3_000_001_001);
    assert!(app.status_message.is_none());
    app.set_status("again".to_string(), 50);
    app.clear_expired_status(10);
    assert!(app.status_message.is_some());
}

#[test]
fn keys_are_always_accepted_by_a_consistent_view() {
    let mut app = App::new(sample());
    for key in [KeyCode::Up, KeyCode::Down, KeyCode::Char('j'), KeyCode::Char('k'), KeyCode::Other] {
        assert!(app.accepts_key(key));
    }
    app.handle_key(KeyCode::Char('s'));
    assert!(app.accepts_key(KeyCode::Down));
    app.signals.clear();
    assert!(!app.accepts_key(KeyCode::Down));
    assert!(!app.accepts_key(KeyCode::Char('k')));
    assert!(app.accepts_key(KeyCode::Esc));
}

#[test]
fn signal_moves_undo_each_other() {
    let mut app = App::new(sample());
    app.handle_key(KeyCode::Char('s'));
    let start = app.mode;
    app.handle_key(KeyCode::Down);
    app.handle_key(KeyCode::Up);
    assert_eq!(app.mode, start);
    app.mode = Mode::SignalSelect { signal_index: 0 };
    app.handle_key(KeyCode::Up);
    assert_eq!(app.mode, Mode::SignalSelect { signal_index: 8 });
    app.handle_key(KeyCode::Down);
    assert_eq!(app.mode, Mode::SignalSelect { signal_index: 0 });
}

#[test]
fn typing_more_filter_text_never_adds_rows() {
    let mut app = App::new(sample());
    assert_eq!(names(&app), vec!["ruby", "chromium", "nginx"]);
    let mut previous = names(&app);
    for c in "UbY".chars() {
        app.filter.push(c);
        let now = names(&app);
        let mut rest = previous.iter();
        for name in &now {
            assert!(rest.any(|p| p == name), "{:?} is not among {:?}", now, previous);
        }
        previous = now;
    }
    assert_eq!(previous, vec!["ruby"]);
}

#[test]
fn a_signal_waits_exactly_while_confirming() {
    let mut app = App::new(sample());
    let keys = [
        KeyCode::Char('s'), KeyCode::Down, KeyCode::Enter, KeyCode::Char('x'), KeyCode::Char('n'),
        KeyCode::Char('s'), KeyCode::Enter, KeyCode::Char('y'), KeyCode::Char('s'), KeyCode::Esc,
        KeyCode::Char('s'), KeyCode::Enter, KeyCode::Esc,
    ];
    for key in keys {
        app.handle_key(key);
        assert_eq!(matches!(app.mode, Mode::SignalConfirm), app.pending_signal.is_some());
        let shown = app.filtered_items().len();
        assert!(shown == 0 || app.selected < shown);
    }
}
