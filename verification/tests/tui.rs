use portwatch::signals::{signal_label, Signal};
use portwatch::tui::{Action, App, KeyCode, Mode};
use portwatch::types::{PortProc, Proto};

fn mock_port_proc() -> PortProc {
    PortProc {
        proto: Proto::Tcp,
        local_address: "127.0.0.1:3000".to_string(),
        pid: 1234,
        proc_name: "test".to_string(),
        state: Some("LISTEN".to_string()),
    }
}

#[test]
fn test_next_empty_list() {
    let mut app = App::new(vec![]);
    app.next();
    assert_eq!(app.selected, 0);
}

#[test]
fn test_next() {
    let mut app = App::new(vec![mock_port_proc(), mock_port_proc()]);
    app.next();
    assert_eq!(app.selected, 1);
}

#[test]
fn test_next_wraps_around() {
    let mut app = App::new(vec![mock_port_proc(), mock_port_proc()]);
    app.selected = 1;
    app.next();
    assert_eq!(app.selected, 0);
}

#[test]
fn test_previous_empty_list() {
    let mut app = App::new(vec![]);
    app.previous();
    assert_eq!(app.selected, 0);
}

#[test]
fn test_previous() {
    let mut app = App::new(vec![mock_port_proc(), mock_port_proc()]);
    app.selected = 1;
    app.previous();
    assert_eq!(app.selected, 0);
}

#[test]
fn test_previous_wraps_around() {
    let mut app = App::new(vec![mock_port_proc(), mock_port_proc()]);
    app.previous();
    assert_eq!(app.selected, 1);
}

#[test]
fn test_refresh_items() {
    let mut app = App::new(vec![mock_port_proc(), mock_port_proc(), mock_port_proc()]);
    app.selected = 2;
    let new_items: Vec<PortProc> = vec![mock_port_proc(), mock_port_proc()];
    app.refresh_items(new_items);
    assert_eq!(app.items.len(), 2);
    assert_eq!(app.selected, 1);
}

#[test]
fn test_default_signal_index_is_sigterm() {
    let mut app = App::new(vec![mock_port_proc()]);
    app.open_signal_selection();

    let Mode::SignalSelect { signal_index } = app.mode else {
        panic!("Expected SignalSelect mode");
    };
    assert_eq!(app.signals[signal_index].signal, Signal::SIGTERM);
}

#[test]
fn test_signal_options_use_native_numbers_and_order() {
    let app = App::new(vec![]);
    let numbers: Vec<i32> = app.signals.iter().map(|option| option.number).collect();

    assert!(numbers.windows(2).all(|pair| pair[0] < pair[1]));
    assert!(app
        .signals
        .iter()
        .all(|option| { signal_label(option).contains(&format!("({})", option.number)) }));
}

#[test]
fn test_next_signal() {
    let mut app = App::new(vec![mock_port_proc()]);
    app.mode = Mode::SignalSelect { signal_index: 0 };
    app.next_signal();
    if let Mode::SignalSelect { signal_index } = app.mode {
        assert_eq!(signal_index, 1);
    } else {
        panic!("Expected SignalSelect mode");
    }
}

#[test]
fn test_next_signal_wraps_around() {
    let mut app = App::new(vec![mock_port_proc()]);
    app.mode = Mode::SignalSelect {
        signal_index: app.signals.len() - 1,
    };
    app.next_signal();
    if let Mode::SignalSelect { signal_index } = app.mode {
        assert_eq!(signal_index, 0);
    } else {
        panic!("Expected SignalSelect mode");
    }
}

#[test]
fn test_previous_signal() {
    let mut app = App::new(vec![mock_port_proc()]);
    app.mode = Mode::SignalSelect { signal_index: 1 };
    app.previous_signal();
    if let Mode::SignalSelect { signal_index } = app.mode {
        assert_eq!(signal_index, 0);
    } else {
        panic!("Expected SignalSelect mode");
    }
}

#[test]
fn test_previous_signal_wraps_around() {
    let mut app = App::new(vec![mock_port_proc()]);
    app.mode = Mode::SignalSelect { signal_index: 0 };
    app.previous_signal();
    if let Mode::SignalSelect { signal_index } = app.mode {
        assert_eq!(signal_index, app.signals.len() - 1);
    } else {
        panic!("Expected SignalSelect mode");
    }
}

#[test]
fn test_next_signal_noop_in_normal_mode() {
    let mut app = App::new(vec![mock_port_proc()]);
    app.mode = Mode::Normal;
    app.next_signal();
    assert!(matches!(app.mode, Mode::Normal));
}

#[test]
fn test_signal_confirmation_snapshots_selected_target() {
    let mut app = App::new(vec![mock_port_proc()]);
    let signal_index = app
        .signals
        .iter()
        .position(|option| option.signal == Signal::SIGKILL)
        .unwrap();
    app.mode = Mode::SignalSelect { signal_index };

    app.request_signal_confirmation();
    app.refresh_items(vec![]);

    assert!(matches!(app.mode, Mode::SignalConfirm));
    let pending = app.pending_signal.as_ref().unwrap();
    assert_eq!(pending.signal, Signal::SIGKILL);
    assert_eq!(pending.pid, 1234);
    assert_eq!(pending.proc_name, "test");
}

#[test]
fn test_enter_opens_signal_confirmation() {
    let mut app = App::new(vec![mock_port_proc()]);
    app.open_signal_selection();

    app.handle_signal_selection_key(KeyCode::Enter);

    assert!(matches!(app.mode, Mode::SignalConfirm));
    assert!(app.pending_signal.is_some());
}

#[test]
fn test_signal_confirmation_requires_y() {
    let mut app = App::new(vec![mock_port_proc()]);
    app.open_signal_selection();
    app.request_signal_confirmation();

    assert!(app.handle_signal_confirmation_key(KeyCode::Enter).is_none());
    assert!(matches!(app.mode, Mode::SignalConfirm));

    let pending = app.handle_signal_confirmation_key(KeyCode::Char('y'));

    assert_eq!(pending.unwrap().pid, 1234);
    assert!(matches!(app.mode, Mode::Normal));
    assert!(app.pending_signal.is_none());
}

#[test]
fn test_n_cancels_signal_confirmation() {
    let mut app = App::new(vec![mock_port_proc()]);
    app.open_signal_selection();
    app.request_signal_confirmation();

    let pending = app.handle_signal_confirmation_key(KeyCode::Char('n'));

    assert!(pending.is_none());
    assert!(matches!(app.mode, Mode::Normal));
    assert!(app.pending_signal.is_none());
}

#[test]
fn test_escape_cancels_signal_confirmation() {
    let mut app = App::new(vec![mock_port_proc()]);
    app.open_signal_selection();
    app.request_signal_confirmation();

    let pending = app.handle_signal_confirmation_key(KeyCode::Esc);

    assert!(pending.is_none());
    assert!(matches!(app.mode, Mode::Normal));
    assert!(app.pending_signal.is_none());
}
