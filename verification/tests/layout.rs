use portwatch::layout::{centered_rect, Rect};
use portwatch::tui::{help_max_scroll_exec, help_text, refresh_due};

const HELP: &str = "
Navigation:
    ↑/k - Move selection up
    ↓/j - Move selection down

Actions:
    s - Send signal to selected process
    q - Quit the application

Search & Filter:
    / - Start filtering (type to search)
    Esc - Clear active filter

Help:
    ? - Show/Hide this help
";

#[test]
fn help_text_is_the_help_page() {
    assert_eq!(help_text(), HELP);
    assert_eq!(help_text().lines().count(), 15);
}

#[test]
fn help_scrolls_ten_lines_at_most() {
    assert_eq!(help_max_scroll_exec(), 10);
}

#[test]
fn scan_is_due_after_five_seconds() {
    assert!(!refresh_due(0));
    assert!(!refresh_due(4_999_999_999));
    assert!(refresh_due(5_000_000_000));
    assert!(refresh_due(u64::MAX));
}

#[test]
fn window_is_centred() {
    let screen = Rect { x: 0, y: 0, width: 100, height: 50 };
    assert_eq!(centered_rect(50, 40, screen), Rect { x: 25, y: 15, width: 50, height: 20 });
    assert_eq!(centered_rect(100, 100, screen), screen);
    let shifted = Rect { x: 10, y: 4, width: 80, height: 20 };
    assert_eq!(centered_rect(50, 60, shifted), Rect { x: 30, y: 8, width: 40, height: 12 });
}

#[test]
fn window_lies_inside_the_screen() {
    for (w, h) in [(0u16, 0u16), (1, 1), (7, 3), (80, 24), (203, 61), (65535, 65535)] {
        for (px, py) in [(60u16, 25u16), (50, 40), (50, 60), (0, 0), (100, 100), (33, 99)] {
            let r = Rect { x: 0, y: 0, width: w, height: h };
            let c = centered_rect(px, py, r);
            assert!(c.x as u32 + c.width as u32 <= w as u32, "{:?}", c);
            assert!(c.y as u32 + c.height as u32 <= h as u32, "{:?}", c);
        }
    }
    let r = Rect { x: 5, y: 3, width: 90, height: 30 };
    let c = centered_rect(60, 25, r);
    assert!(r.x <= c.x && c.x + c.width <= r.x + r.width);
    assert!(r.y <= c.y && c.y + c.height <= r.y + r.height);
}
