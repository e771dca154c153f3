use portwatch::display::{display_row, table_lines};
use portwatch::screen::{
    confirmation_message, send_failed_message, sent_message, signal_modal_title,
};
use portwatch::signals::{available_signals, signal_label, signal_row_text, Signal, SignalOption};
use portwatch::tui::{App, KeyCode, PendingSignal};
use portwatch::types::{PortProc, Proto};

fn record(proto: Proto, addr: &str, pid: u32, name: &str, state: Option<&str>) -> PortProc {
    PortProc {
        proto,
        local_address: addr.to_string(),
        pid,
        proc_name: name.to_string(),
        state: state.map(|s| s.to_string()),
    }
}

#[test]
fn table_of_nothing_is_a_note() {
    assert_eq!(table_lines(&[]), vec!["No listening ports found.".to_string()]);
}

#[test]
fn table_lines_pad_like_the_format_string() {
    let items = vec![
        record(Proto::Tcp, "127.0.0.1:3000", 27264, "ruby", Some("LISTEN")),
        record(Proto::Udp, "no-port", 7, "a-long-process-name", None),
    ];
    let lines = table_lines(&items);
    assert_eq!(lines.len(), 3);
    let width = 19;
    assert_eq!(
        lines[0],
        format!(
            "{}{:<6} {:>6} {:<10} {:>20} {:<8} {:<width$}{}",
            "\x1b[7m", "PROTO", "PID", "STATE", "ADDRESS", "PORT", "PROCESS", "\x1b[0m",
            width = width
        )
    );
    assert_eq!(
        lines[1],
        "TCP     27264 LISTEN                127.0.0.1 3000     ruby               "
    );
    assert_eq!(
        lines[2],
        format!(
            "{:<6} {:>6} {:<10} {:>20} {:<8} {:<width$}",
            "UDP", 7, "", "no-port", "?", "a-long-process-name",
            width = width
        )
    );
}

#[test]
fn process_column_is_at_least_seven_wide() {
    let lines = table_lines(&[record(Proto::Tcp, "h:1", 1, "x", None)]);
    assert!(lines[0].ends_with("PROCESS\x1b[0m"));
    assert!(lines[1].ends_with(" x      "));
}

#[test]
fn row_cells_split_address_and_port() {
    let row = display_row(&record(Proto::Udp, "[::1]:53", 42, "dns", Some("UNCONN")));
    assert_eq!(row.proto, "UDP");
    assert_eq!(row.pid, "42");
    assert_eq!(row.state, "UNCONN");
    assert_eq!(row.address, "[::1]");
    assert_eq!(row.port, "53");
    assert_eq!(row.process, "dns");
    let row = display_row(&record(Proto::Tcp, "*:*", 0, "x", None));
    assert_eq!(row.address, "*");
    assert_eq!(row.port, "?");
    assert_eq!(row.state, "");
    assert_eq!(row.pid, "0");
}

#[test]
fn signal_labels_pad_the_name() {
    let option = SignalOption::new(Signal::SIGKILL);
    assert_eq!(option.number, 9);
    assert_eq!(signal_label(&option), "SIGKILL (9)");
    let option = SignalOption::new(Signal::SIGHUP);
    assert_eq!(signal_label(&option), "SIGHUP  (1)");
    assert_eq!(signal_row_text(&option), "SIGHUP  (1) - Hangup / reload config");
}

#[test]
fn signal_list_is_the_curated_nine_in_number_order() {
    let signals = available_signals();
    assert_eq!(signals.len(), 9);
    let numbers: Vec<i32> = signals.iter().map(|o| o.number).collect();
    assert_eq!(&numbers[..4], &[1, 2, 3, 9]);
    assert!(numbers.windows(2).all(|p| p[0] < p[1]));
    let term = signals.iter().find(|o| o.signal == Signal::SIGTERM).unwrap();
    assert_eq!(term.number, 15);
    assert_eq!(term.name, "SIGTERM");
    assert_eq!(term.description, "Graceful shutdown");
}

#[test]
fn hint_counts_shown_records() {
    let mut app = App::new(vec![
        record(Proto::Tcp, "h:1", 1, "alpha", None),
        record(Proto::Tcp, "h:2", 2, "beta", None),
    ]);
    assert_eq!(
        app.hint(),
        " 2 processes | ↑↓ or j/k: navigate | s: signal | /: filter | q: quit "
    );
    app.filter = "ALP".to_string();
    assert_eq!(
        app.hint(),
        " Showing 1 of 2 processes | ↑↓ or j/k: navigate | s: signal | /: filter | q: quit "
    );
    app.set_status("Sent SIGTERM (15) to PID 1 (alpha)".to_string(), 0);
    assert_eq!(app.hint(), " Sent SIGTERM (15) to PID 1 (alpha) ");
}

#[test]
fn screen_messages() {
    let mut app = App::new(vec![]);
    assert_eq!(app.screen_message(), Some("No processes listening on ports".to_string()));
    app.refresh_items(vec![record(Proto::Tcp, "h:1", 1, "alpha", None)]);
    assert_eq!(app.screen_message(), None);
    app.handle_key(KeyCode::Char('/'));
    app.handle_key(KeyCode::Char('z'));
    assert_eq!(
        app.screen_message(),
        Some("No processes match filter 'z'\nPress Esc to clear filter".to_string())
    );
}

#[test]
fn dialog_and_status_texts() {
    let pending = PendingSignal {
        signal: Signal::SIGTERM,
        signal_name: "SIGTERM",
        signal_number: 15,
        pid: 1234,
        proc_name: "test".to_string(),
    };
    assert_eq!(confirmation_message(&pending), "Send SIGTERM (15) to PID 1234 (test)?");
    assert_eq!(sent_message(&pending), "Sent SIGTERM (15) to PID 1234 (test)");
    assert_eq!(
        send_failed_message(1234, "EPERM: Operation not permitted"),
        "Failed to send signal to PID 1234: EPERM: Operation not permitted"
    );
    assert_eq!(signal_modal_title(1234, "test"), " Send signal to PID 1234 (test) ");
}
