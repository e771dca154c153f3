//! The state of the interactive view and how it answers keys: moving the
//! selection, filtering, the help page, and choosing and confirming a
//! signal. Drawing, reading keys, scanning and sending signals are done by
//! the caller, which hands keys in and performs the actions handed back.
use vstd::prelude::*;

use crate::number::{decimal, decimal_string};
use crate::scanner::{extract_port, port_of};
use crate::signals::{available_signals, Signal, SignalOption, curated_options, number_key,
    option_consistent, curated_signals};
use crate::sort::sort_by_key;
use crate::text::{
    chars_of, contains, contains_exec, joined_lines, lemma_contains_prefix, starts_with, lemma_joined_push, lemma_lines_of_joined,
    lines, lowercase, plain_line, pop_char, push_char, push_str, split_lines, to_lowercase,
    ascii_lowercase,
};
use crate::types::{proto_text, PortProc, PortProcView};

verus! {

/// Nanoseconds a status message stays on screen (three seconds).
pub const STATUS_MESSAGE_TIMEOUT_NANOS: u64 = 3_000_000_000;

/// Seconds between two scans.
pub const REFRESH_INTERVAL_SEC: u64 = 5;

/// Nanoseconds between two scans.
pub const REFRESH_INTERVAL_NANOS: u64 = 5_000_000_000;

/// A new scan is due once `elapsed_nanos`, the time since the last one, has
/// reached the refresh interval.
pub fn refresh_due(elapsed_nanos: u64) -> (res: bool)
    ensures
        res == (elapsed_nanos >= REFRESH_INTERVAL_SEC * 1_000_000_000),
{
    elapsed_nanos >= REFRESH_INTERVAL_NANOS
}

/// Milliseconds to wait for a key before redrawing.
pub const POLL_TIMEOUT_MS: u64 = 100;

/// A key press, as far as the view distinguishes keys.
#[derive(Debug, Clone, Copy, PartialEq, Eq, Structural)]
pub enum KeyCode {
    Char(char),
    Up,
    Down,
    Enter,
    Esc,
    Backspace,
    Other,
}

/// What the view is doing.
#[derive(Debug, Clone, Copy, PartialEq, Eq, Structural)]
pub enum Mode {
    Normal,
    SignalSelect { signal_index: usize },
    SignalConfirm,
    Filter,
    Help { scroll: u16 },
}

/// A signal chosen for a process, waiting to be confirmed.
pub struct PendingSignal {
    pub signal: Signal,
    pub signal_name: &'static str,
    pub signal_number: i32,
    pub pid: u32,
    pub proc_name: String,
}

/// What the caller is to do after a key.
pub enum Action {
    /// Nothing beyond redrawing.
    Continue,
    /// Leave the view.
    Quit,
    /// Send the confirmed signal, report the outcome with `set_status`, scan
    /// again and hand the records to `refresh_items`.
    Send(PendingSignal),
}

/// The state of the interactive view.
pub struct App {
    pub items: Vec<PortProc>,
    pub selected: usize,
    pub mode: Mode,
    pub filter: String,
    /// A message and the time it was set, in nanoseconds since an origin the
    /// caller chooses.
    pub status_message: Option<(String, u64)>,
    pub signals: Vec<SignalOption>,
    pub pending_signal: Option<PendingSignal>,
}

// ---------------------------------------------------------------------------
// Filtering
// ---------------------------------------------------------------------------

/// A record matches the lowercased filter text `f` when `f` occurs in its
/// lowercased process name, its PID, its port, its lowercased address or its
/// lowercased protocol.
pub open spec fn item_matches(p: PortProcView, f: Seq<char>) -> bool {
    ||| contains(lowercase(p.proc_name), f)
    ||| contains(decimal(p.pid as nat), f)
    ||| (port_of(p.local_address) matches Some(port) && contains(decimal(port as nat), f))
    ||| contains(lowercase(p.local_address), f)
    ||| contains(lowercase(proto_text(p.proto)), f)
}

/// Holds of the records that match the lowercased filter text `f`.
pub open spec fn matches_filter(f: Seq<char>) -> spec_fn(PortProc) -> bool {
    |p: PortProc| item_matches(p@, f)
}

/// The records shown for `filter`: all of them when it is empty, else those
/// that match it, in their order.
pub open spec fn filtered(items: Seq<PortProc>, filter: Seq<char>) -> Seq<PortProc> {
    if filter.len() == 0 {
        items
    } else {
        items.filter(matches_filter(lowercase(filter)))
    }
}

/// Filtering twice, the second time by a stronger condition, is filtering
/// once by the stronger one.
proof fn lemma_filter_twice<A>(items: Seq<A>, weak: spec_fn(A) -> bool, strong: spec_fn(A) -> bool)
    requires
        forall|x: A| #[trigger] strong(x) ==> weak(x),
    ensures
        items.filter(strong) == items.filter(weak).filter(strong),
    decreases items.len(),
{
    reveal(Seq::filter);
    if items.len() > 0 {
        lemma_filter_twice(items.drop_last(), weak, strong);
        let x = items.last();
        let w = items.drop_last().filter(weak);
        if weak(x) {
            assert(w.push(x).drop_last() =~= w);
            assert(w.push(x).last() == x);
        }
    }
}

/// Typing more filter text never adds rows. When the lowercased longer text
/// `f + s` begins with the lowercased `f` (which `to_lowercase` states of
/// all ASCII texts), the records shown for `f + s` are those shown for `f`
/// that also match the longer text, in the same order; an empty filter
/// shows every record.
pub proof fn lemma_filter_narrows(items: Seq<PortProc>, f: Seq<char>, s: Seq<char>)
    requires
        starts_with(lowercase(f + s), lowercase(f)),
    ensures
        f.len() == 0 ==> filtered(items, f) == items,
        filtered(items, f + s) == if (f + s).len() == 0 {
            filtered(items, f)
        } else {
            filtered(items, f).filter(matches_filter(lowercase(f + s)))
        },
{
    let lf = lowercase(f);
    let lfs = lowercase(f + s);
    if (f + s).len() == 0 {
        assert(f + s =~= f);
    } else if f.len() > 0 {
        assert forall|p: PortProc| #[trigger] matches_filter(lfs)(p) implies matches_filter(lf)(p) by {
            let v = p@;
            if contains(lowercase(v.proc_name), lfs) {
                lemma_contains_prefix(lowercase(v.proc_name), lf, lfs);
            } else if contains(decimal(v.pid as nat), lfs) {
                lemma_contains_prefix(decimal(v.pid as nat), lf, lfs);
            } else if port_of(v.local_address) is Some && contains(
                decimal(port_of(v.local_address).unwrap() as nat),
                lfs,
            ) {
                lemma_contains_prefix(decimal(port_of(v.local_address).unwrap() as nat), lf, lfs);
            } else if contains(lowercase(v.local_address), lfs) {
                lemma_contains_prefix(lowercase(v.local_address), lf, lfs);
            } else {
                lemma_contains_prefix(lowercase(proto_text(v.proto)), lf, lfs);
            }
        }
        lemma_filter_twice(items, matches_filter(lf), matches_filter(lfs));
    }
}

/// The records that references point to.
pub open spec fn targets(s: Seq<&PortProc>) -> Seq<PortProc> {
    s.map_values(|r: &PortProc| *r)
}

fn item_matches_exec(item: &PortProc, f: &Vec<char>) -> (res: bool)
    ensures
        res == item_matches(item@, f@),
{
    let name = to_lowercase(item.proc_name.as_str());
    let name = chars_of(name.as_str());
    if contains_exec(&name, f) {
        return true;
    }
    let pid = decimal_string(item.pid as u64);
    let pid = chars_of(pid.as_str());
    if contains_exec(&pid, f) {
        return true;
    }
    match extract_port(item.local_address.as_str()) {
        Some(port) => {
            let port = decimal_string(port as u64);
            let port = chars_of(port.as_str());
            if contains_exec(&port, f) {
                return true;
            }
        },
        None => {},
    }
    let addr = to_lowercase(item.local_address.as_str());
    let addr = chars_of(addr.as_str());
    if contains_exec(&addr, f) {
        return true;
    }
    let proto = item.proto.to_string();
    let proto = to_lowercase(proto.as_str());
    let proto = chars_of(proto.as_str());
    contains_exec(&proto, f)
}

// ---------------------------------------------------------------------------
// Selection arithmetic
// ---------------------------------------------------------------------------

/// The selection after moving down in a list of `n` rows: past the last row
/// it wraps to the first.
pub open spec fn next_index(selected: int, n: int) -> int {
    if selected == n - 1 {
        0
    } else {
        selected + 1
    }
}

/// The selection after moving up in a list of `n` rows: above the first row
/// it wraps to the last.
pub open spec fn previous_index(selected: int, n: int) -> int {
    if selected == 0 {
        n - 1
    } else {
        selected - 1
    }
}

/// Moving down and then up returns to the same row.
pub proof fn lemma_previous_undoes_next(selected: int, n: int)
    requires
        0 <= selected < n,
    ensures
        previous_index(next_index(selected, n), n) == selected,
        0 <= next_index(selected, n) < n,
{
}

/// Moving up and then down returns to the same row.
pub proof fn lemma_next_undoes_previous(selected: int, n: int)
    requires
        0 <= selected < n,
    ensures
        next_index(previous_index(selected, n), n) == selected,
        0 <= previous_index(selected, n) < n,
{
}

/// The selection after the list is replaced: clamped to the shown records,
/// or, when none is shown, to all records.
pub open spec fn clamped_index(selected: int, shown: int, total: int) -> int {
    if shown != 0 && selected >= shown {
        shown - 1
    } else if total != 0 && selected >= total {
        total - 1
    } else {
        selected
    }
}

/// The lines of the help page.
pub open spec fn help_lines() -> Seq<Seq<char>> {
    seq![
        ""@,
        "Navigation:"@,
        "    ↑/k - Move selection up"@,
        "    ↓/j - Move selection down"@,
        ""@,
        "Actions:"@,
        "    s - Send signal to selected process"@,
        "    q - Quit the application"@,
        ""@,
        "Search & Filter:"@,
        "    / - Start filtering (type to search)"@,
        "    Esc - Clear active filter"@,
        ""@,
        "Help:"@,
        "    ? - Show/Hide this help"@,
    ]
}

/// The text of the help page: each of its lines ended by a line feed.
pub fn help_text() -> (res: String)
    ensures
        res@ == joined_lines(help_lines()),
{
    let parts: Vec<&str> = vec![
        "",
        "Navigation:",
        "    ↑/k - Move selection up",
        "    ↓/j - Move selection down",
        "",
        "Actions:",
        "    s - Send signal to selected process",
        "    q - Quit the application",
        "",
        "Search & Filter:",
        "    / - Start filtering (type to search)",
        "    Esc - Clear active filter",
        "",
        "Help:",
        "    ? - Show/Hide this help",
    ];
    assert(parts@.len() == help_lines().len());
    assert forall|k: int| 0 <= k < parts@.len() implies (#[trigger] parts@[k])@ == help_lines()[k] by {}
    let mut res = String::new();
    let mut i: usize = 0;
    while i < parts.len()
        invariant
            i <= parts@.len() == help_lines().len(),
            forall|k: int| 0 <= k < parts@.len() ==> (#[trigger] parts@[k])@ == help_lines()[k],
            res@ == joined_lines(help_lines().take(i as int)),
        decreases parts.len() - i,
    {
        proof {
            lemma_joined_push(help_lines().take(i as int), help_lines()[i as int]);
            assert(help_lines().take(i as int).push(help_lines()[i as int]) =~= help_lines().take(
                i + 1,
            ));
        }
        push_str(&mut res, parts[i]);
        push_char(&mut res, '\n');
        i = i + 1;
    }
    assert(help_lines().take(help_lines().len() as int) =~= help_lines());
    res
}

/// How far the help page can scroll: its line count less five, at least
/// zero.
pub open spec fn help_max_scroll() -> u16 {
    let n = lines(joined_lines(help_lines())).len();
    (if n >= 5 {
        n - 5
    } else {
        0
    }) as u16
}

/// The help page has fifteen lines, so it scrolls by at most ten.
pub proof fn lemma_help_max_scroll()
    ensures
        lines(joined_lines(help_lines())).len() == 15,
        help_max_scroll() == 10,
{
    reveal_strlit("");
    reveal_strlit("Navigation:");
    reveal_strlit("    ↑/k - Move selection up");
    reveal_strlit("    ↓/j - Move selection down");
    reveal_strlit("Actions:");
    reveal_strlit("    s - Send signal to selected process");
    reveal_strlit("    q - Quit the application");
    reveal_strlit("Search & Filter:");
    reveal_strlit("    / - Start filtering (type to search)");
    reveal_strlit("    Esc - Clear active filter");
    reveal_strlit("Help:");
    reveal_strlit("    ? - Show/Hide this help");
    let ls = help_lines();
    assert forall|k: int| 0 <= k < ls.len() implies plain_line(#[trigger] ls[k]) by {
        assert(ls[k].len() > 0 ==> ls[k].last() != '\r');
    }
    lemma_lines_of_joined(ls);
}

/// How far the help page can scroll.
pub fn help_max_scroll_exec() -> (res: u16)
    ensures
        res == help_max_scroll(),
{
    let t = help_text();
    let text = chars_of(t.as_str());
    let ls = split_lines(&text);
    assert(crate::text::views(ls@).len() == ls@.len());
    let n = ls.len();
    let m = if n >= 5 {
        n - 5
    } else {
        0
    };
    m as u16
}

/// The position of the first `SIGTERM` in `signals`, or zero when there is
/// none.
pub open spec fn default_signal_index(signals: Seq<SignalOption>) -> int {
    if exists|i: int| 0 <= i < signals.len() && (#[trigger] signals[i]).signal == Signal::SIGTERM {
        choose|i: int|
            0 <= i < signals.len() && (#[trigger] signals[i]).signal == Signal::SIGTERM
                && forall|j: int| 0 <= j < i ==> (#[trigger] signals[j]).signal != Signal::SIGTERM
    } else {
        0
    }
}

/// `s` is the signal list that a new view offers: the curated signals
/// strictly ordered by number, each listed once.
pub open spec fn is_signal_list(s: Seq<SignalOption>) -> bool {
    &&& exists|opts: Seq<SignalOption>|
        curated_options(opts) && s == #[trigger] sort_by_key(opts, number_key())
    &&& s.len() == 9
    &&& forall|i: int, j: int| 0 <= i < j < s.len() ==> s[i].number < s[j].number
    &&& forall|i: int| 0 <= i < s.len() ==> option_consistent(#[trigger] s[i])
    &&& forall|k: int|
        #![trigger curated_signals()[k]]
        0 <= k < 9 ==> exists|i: int|
            0 <= i < s.len() && (#[trigger] s[i]).signal == curated_signals()[k]
}

/// The snapshot of a signal option and a record.
pub open spec fn pending_for(p: PendingSignal, o: SignalOption, target: PortProc) -> bool {
    &&& p.signal == o.signal
    &&& p.signal_name == o.name
    &&& p.signal_number == o.number
    &&& p.pid == target.pid
    &&& p.proc_name@ == target.proc_name@
}

/// The mode after moving down the signal list of `n` entries.
pub open spec fn next_signal_mode(mode: Mode, n: int) -> Mode {
    match mode {
        Mode::SignalSelect { signal_index } => Mode::SignalSelect {
            signal_index: ((signal_index + 1) % n) as usize,
        },
        m => m,
    }
}

/// The mode after moving up the signal list of `n` entries.
pub open spec fn previous_signal_mode(mode: Mode, n: int) -> Mode {
    match mode {
        Mode::SignalSelect { signal_index } => Mode::SignalSelect {
            signal_index: previous_index(signal_index as int, n) as usize,
        },
        m => m,
    }
}

/// `new` is `old` after asking to confirm the chosen signal: in the signal
/// list, with the index inside the list and a record selected, the signal
/// and the record are snapshotted and confirmation begins; otherwise nothing
/// changes.
pub open spec fn requested(old: &App, new: &App) -> bool {
    let shown = old.shown();
    &&& new.same_data(old)
    &&& new.selected == old.selected
    &&& match old.mode {
        Mode::SignalSelect { signal_index } => if signal_index < old.signals.len()
            && old.selected < shown.len() {
            &&& new.mode == Mode::SignalConfirm
            &&& new.pending_signal matches Some(p) && pending_for(
                p,
                old.signals@[signal_index as int],
                shown[old.selected as int],
            )
        } else {
            new.mode == old.mode && new.pending_signal == old.pending_signal
        },
        _ => new.mode == old.mode && new.pending_signal == old.pending_signal,
    }
}

/// `new` is `old` with only the mode changed, to `mode`.
pub open spec fn mode_set(old: &App, new: &App, mode: Mode) -> bool {
    &&& new.same_data(old)
    &&& new.selected == old.selected
    &&& new.pending_signal == old.pending_signal
    &&& new.mode == mode
}

/// `new` is `old` with the selection set to `selected`.
pub open spec fn selection_set(old: &App, new: &App, selected: int) -> bool {
    &&& new.same_data(old)
    &&& new.selected == selected
    &&& new.pending_signal == old.pending_signal
    &&& new.mode == old.mode
}

/// `new` is `old` with the filter text changed to `filter`, the selection
/// back on the first record and the mode set to `mode`.
pub open spec fn filter_set(old: &App, new: &App, filter: Seq<char>, mode: Mode) -> bool {
    &&& new.items@ == old.items@
    &&& new.filter@ == filter
    &&& new.status_message == old.status_message
    &&& new.signals@ == old.signals@
    &&& new.selected == 0
    &&& new.pending_signal == old.pending_signal
    &&& new.mode == mode
}

/// `new` is `old` after a key in the signal list.
pub open spec fn selection_key_answered(old: &App, new: &App, key: KeyCode) -> bool {
    let n = old.signals.len() as int;
    if key == KeyCode::Esc {
        mode_set(old, new, Mode::Normal)
    } else if key == KeyCode::Up || key == KeyCode::Char('k') {
        mode_set(old, new, previous_signal_mode(old.mode, n))
    } else if key == KeyCode::Down || key == KeyCode::Char('j') {
        mode_set(old, new, next_signal_mode(old.mode, n))
    } else if key == KeyCode::Enter {
        requested(old, new)
    } else {
        mode_set(old, new, old.mode)
    }
}

/// `new` and `action` answer `key` in `old`.
pub open spec fn key_answered(old: &App, new: &App, key: KeyCode, action: &Action) -> bool {
    let up = key == KeyCode::Up || key == KeyCode::Char('k');
    let down = key == KeyCode::Down || key == KeyCode::Char('j');
    let n = old.shown().len() as int;
    match old.mode {
        Mode::Normal => if key == KeyCode::Char('q') {
            action is Quit && mode_set(old, new, old.mode)
        } else {
            &&& action is Continue
            &&& if key == KeyCode::Char('?') {
                mode_set(old, new, Mode::Help { scroll: 0 })
            } else if key == KeyCode::Char('s') {
                mode_set(
                    old,
                    new,
                    Mode::SignalSelect {
                        signal_index: default_signal_index(old.signals@) as usize,
                    },
                )
            } else if key == KeyCode::Char('/') {
                mode_set(old, new, Mode::Filter)
            } else if key == KeyCode::Esc {
                if old.filter@.len() > 0 {
                    filter_set(old, new, seq![], Mode::Normal)
                } else {
                    mode_set(old, new, old.mode)
                }
            } else if up {
                selection_set(
                    old,
                    new,
                    if n == 0 {
                        old.selected as int
                    } else {
                        previous_index(old.selected as int, n)
                    },
                )
            } else if down {
                selection_set(
                    old,
                    new,
                    if n == 0 {
                        old.selected as int
                    } else {
                        next_index(old.selected as int, n)
                    },
                )
            } else {
                mode_set(old, new, old.mode)
            }
        },
        Mode::SignalSelect { .. } => action is Continue && selection_key_answered(old, new, key),
        Mode::SignalConfirm => if key == KeyCode::Char('y') {
            &&& new.same_data(old)
            &&& new.selected == old.selected
            &&& new.mode == Mode::Normal
            &&& new.pending_signal is None
            &&& match old.pending_signal {
                Some(p) => action matches Action::Send(q) && q == p,
                None => action is Continue,
            }
        } else if key == KeyCode::Char('n') || key == KeyCode::Esc {
            &&& action is Continue
            &&& new.same_data(old)
            &&& new.selected == old.selected
            &&& new.mode == Mode::Normal
            &&& new.pending_signal is None
        } else {
            action is Continue && mode_set(old, new, old.mode)
        },
        Mode::Filter => {
            &&& action is Continue
            &&& if key == KeyCode::Esc {
                filter_set(old, new, seq![], Mode::Normal)
            } else if key == KeyCode::Enter {
                mode_set(old, new, Mode::Normal)
            } else if key == KeyCode::Backspace {
                filter_set(
                    old,
                    new,
                    if old.filter@.len() > 0 {
                        old.filter@.drop_last()
                    } else {
                        old.filter@
                    },
                    Mode::Filter,
                )
            } else {
                match key {
                    KeyCode::Char(c) => filter_set(old, new, old.filter@.push(c), Mode::Filter),
                    _ => mode_set(old, new, old.mode),
                }
            }
        },
        Mode::Help { scroll } => {
            &&& action is Continue
            &&& if key == KeyCode::Esc || key == KeyCode::Char('?') {
                mode_set(old, new, Mode::Normal)
            } else if up {
                mode_set(
                    old,
                    new,
                    Mode::Help {
                        scroll: if scroll > 0 {
                            (scroll - 1) as u16
                        } else {
                            scroll
                        },
                    },
                )
            } else if down {
                mode_set(
                    old,
                    new,
                    Mode::Help {
                        scroll: if scroll < help_max_scroll() {
                            (scroll + 1) as u16
                        } else {
                            scroll
                        },
                    },
                )
            } else {
                mode_set(old, new, old.mode)
            }
        },
    }
}

/// The keys on which the view would overflow or divide by zero: moving down
/// from the largest index, or moving in an empty signal list.
pub open spec fn key_in_range(app: &App, key: KeyCode) -> bool {
    let up = key == KeyCode::Up || key == KeyCode::Char('k');
    let down = key == KeyCode::Down || key == KeyCode::Char('j');
    let n = app.shown().len();
    &&& (app.mode == Mode::Normal && down) ==> (n == 0 || app.selected == n - 1 || app.selected
        < usize::MAX)
    &&& app.mode matches Mode::SignalSelect { signal_index } ==> (down ==> app.signals.len() > 0
        && signal_index < usize::MAX)
    &&& (app.mode matches Mode::SignalSelect { .. } && up) ==> app.signals.len() > 0
}

/// A view that keeps its invariant never meets a key on which it would
/// overflow or divide by zero.
pub proof fn lemma_wf_keys_in_range(app: &App, key: KeyCode)
    requires
        app.wf(),
    ensures
        key_in_range(app, key),
{
    lemma_shown_records(app.items@, app.filter@);
    assert(app.items@.len() == app.items.len());
}

/// On the help page the view scrolls between zero and ten lines: `?` opens
/// it at the top, `Down`/`j` moves on only while below ten, `Up`/`k` moves
/// back only while above zero, `Esc` or `?` closes it, and any other key
/// changes nothing.
pub proof fn lemma_help_scroll_bound(old: &App, new: &App, key: KeyCode, action: &Action)
    requires
        old.wf(),
        new.wf(),
        key_answered(old, new, key, action),
    ensures
        new.mode matches Mode::Help { scroll } ==> scroll <= 10,
        (old.mode is Normal && key == KeyCode::Char('?')) ==> new.mode == (Mode::Help { scroll: 0 }),
        old.mode matches Mode::Help { scroll } ==> (match key {
            KeyCode::Esc | KeyCode::Char('?') => new.mode is Normal,
            KeyCode::Up | KeyCode::Char('k') => new.mode == (Mode::Help {
                scroll: if scroll > 0 { (scroll - 1) as u16 } else { scroll },
            }),
            KeyCode::Down | KeyCode::Char('j') => new.mode == (Mode::Help {
                scroll: if scroll < 10 { (scroll + 1) as u16 } else { scroll },
            }),
            _ => mode_set(old, new, old.mode),
        }),
{
    lemma_help_max_scroll();
}

/// Moving down the signal list and back up returns to the same signal, and
/// so does moving up and back down.
pub proof fn lemma_signal_moves_undo(signal_index: usize, n: int)
    requires
        0 <= signal_index < n <= usize::MAX,
    ensures
        previous_signal_mode(next_signal_mode((Mode::SignalSelect { signal_index }), n), n)
            == (Mode::SignalSelect { signal_index }),
        next_signal_mode(previous_signal_mode((Mode::SignalSelect { signal_index }), n), n)
            == (Mode::SignalSelect { signal_index }),
{
    if signal_index + 1 == n {
        assert((signal_index + 1) % n == 0) by (nonlinear_arith)
            requires
                signal_index + 1 == n,
                n > 0,
        ;
    } else {
        assert((signal_index + 1) % n == signal_index + 1) by (nonlinear_arith)
            requires
                0 <= signal_index + 1 < n,
        ;
    }
    if signal_index == 0 {
        assert(n % n == 0) by (nonlinear_arith)
            requires
                n > 0,
        ;
    } else {
        assert((signal_index as int) % n == signal_index) by (nonlinear_arith)
            requires
                0 <= signal_index < n,
        ;
    }
}

/// A signal is handed out only when a confirmation is answered with `y`,
/// and it is the one that was snapshotted when confirmation began.
pub proof fn lemma_send_needs_confirmation(old: &App, new: &App, key: KeyCode, action: &Action)
    requires
        key_answered(old, new, key, action),
        action is Send,
    ensures
        old.mode == Mode::SignalConfirm,
        key == KeyCode::Char('y'),
        action matches Action::Send(p) && old.pending_signal == Some(*p),
        new.mode == Mode::Normal,
        new.pending_signal is None,
{
}

/// With no filter every record is shown; under a filter the shown records
/// are exactly those that match it, in their order.
pub proof fn lemma_shown_records(items: Seq<PortProc>, filter: Seq<char>)
    ensures
        filter.len() == 0 ==> filtered(items, filter) == items,
        filtered(items, filter).len() <= items.len(),
        filter.len() > 0 ==> forall|i: int|
            0 <= i < filtered(items, filter).len() ==> item_matches(
                (#[trigger] filtered(items, filter)[i])@,
                lowercase(filter),
            ),
        filter.len() > 0 ==> forall|i: int|
            0 <= i < items.len() && item_matches((#[trigger] items[i])@, lowercase(filter))
                ==> filtered(items, filter).contains(items[i]),
{
    broadcast use vstd::seq_lib::group_filter_ensures;

    if filter.len() > 0 {
        let pred = matches_filter(lowercase(filter));
        items.lemma_filter_len(pred);
        assert forall|i: int|
            0 <= i < filtered(items, filter).len() implies item_matches(
                (#[trigger] filtered(items, filter)[i])@,
                lowercase(filter),
            ) by {
            items.lemma_filter_pred(pred, i);
        }
        assert forall|i: int|
            0 <= i < items.len() && item_matches((#[trigger] items[i])@, lowercase(filter))
                implies filtered(items, filter).contains(items[i]) by {
            items.lemma_filter_contains(pred, i);
        }
    }
}

impl App {
    /// The records shown under the current filter.
    pub open spec fn shown(&self) -> Seq<PortProc> {
        filtered(self.items@, self.filter@)
    }

    /// The invariant the view keeps: when records are shown the selection is
    /// one of them; the signal list is not empty and a signal index points
    /// into it; the help page is scrolled no further than it can be; a
    /// signal waits exactly while a confirmation is open.
    pub open spec fn wf(&self) -> bool {
        &&& self.signals.len() > 0
        &&& self.shown().len() > 0 ==> self.selected < self.shown().len()
        &&& (self.mode matches Mode::SignalSelect { signal_index } ==> signal_index
            < self.signals.len())
        &&& (self.mode matches Mode::Help { scroll } ==> scroll <= help_max_scroll())
        &&& (self.mode == Mode::SignalConfirm <==> self.pending_signal is Some)
    }

    /// Everything but the selection, the mode and the pending signal is as
    /// in `other`.
    pub open spec fn same_data(&self, other: &App) -> bool {
        &&& self.items@ == other.items@
        &&& self.filter@ == other.filter@
        &&& self.status_message == other.status_message
        &&& self.signals@ == other.signals@
    }

    /// A view of `items` in normal mode, with the first record selected, no
    /// filter and the curated signals.
    pub fn new(items: Vec<PortProc>) -> (res: App)
        ensures
            res.items@ == items@,
            res.selected == 0,
            res.mode == Mode::Normal,
            res.filter@.len() == 0,
            res.status_message is None,
            is_signal_list(res.signals@),
            res.pending_signal is None,
            res.wf(),
    {
        App {
            items,
            selected: 0,
            mode: Mode::Normal,
            filter: String::new(),
            status_message: None,
            signals: available_signals(),
            pending_signal: None,
        }
    }

    /// The records shown under the current filter, in order.
    pub fn filtered_items(&self) -> (res: Vec<&PortProc>)
        ensures
            targets(res@) == self.shown(),
    {
        let mut res: Vec<&PortProc> = Vec::new();
        let empty = self.filter.as_str().is_empty();
        let lower = to_lowercase(self.filter.as_str());
        let f = chars_of(lower.as_str());
        let ghost pred = matches_filter(lowercase(self.filter@));
        let mut i: usize = 0;
        while i < self.items.len()
            invariant
                i <= self.items.len(),
                empty == (self.filter@.len() == 0),
                f@ == lowercase(self.filter@),
                pred == matches_filter(lowercase(self.filter@)),
                empty ==> targets(res@) == self.items@.take(i as int),
                !empty ==> targets(res@) == self.items@.take(i as int).filter(pred),
            decreases self.items.len() - i,
        {
            let item = &self.items[i];
            assert(self.items@.take(i + 1) =~= self.items@.take(i as int).push(self.items@[i as int]));
            proof {
                self.items@.take(i as int).lemma_filter_push(self.items@[i as int], pred);
            }
            if empty || item_matches_exec(item, &f) {
                res.push(item);
            }
            assert(targets(res@) =~= if empty {
                self.items@.take(i + 1)
            } else {
                self.items@.take(i + 1).filter(pred)
            });
            i = i + 1;
        }
        assert(self.items@.take(self.items.len() as int) =~= self.items@);
        res
    }

    /// The number of records shown under the current filter.
    pub fn filtered_len(&self) -> (res: usize)
        ensures
            res == self.shown().len(),
    {
        let shown = self.filtered_items();
        assert(targets(shown@).len() == shown@.len());
        shown.len()
    }

    /// Opens the signal list with `SIGTERM` selected (the first entry when
    /// the list has no `SIGTERM`).
    pub fn open_signal_selection(&mut self)
        ensures
            final(self).mode == (Mode::SignalSelect {
                signal_index: default_signal_index(old(self).signals@) as usize,
            }),
            final(self).same_data(old(self)),
            final(self).selected == old(self).selected,
            final(self).pending_signal == old(self).pending_signal,
            old(self).wf() && old(self).mode != Mode::SignalConfirm ==> final(self).wf(),
    {
        let mut idx: usize = 0;
        let mut found = false;
        while idx < self.signals.len()
            invariant_except_break
                !found,
            invariant
                idx <= self.signals.len(),
                forall|j: int| 0 <= j < idx ==> (#[trigger] self.signals@[j]).signal != Signal::SIGTERM,
            ensures
                idx <= self.signals.len(),
                forall|j: int| 0 <= j < idx ==> (#[trigger] self.signals@[j]).signal != Signal::SIGTERM,
                found ==> idx < self.signals.len() && self.signals@[idx as int].signal == Signal::SIGTERM,
                !found ==> idx == self.signals.len(),
            decreases self.signals.len() - idx,
        {
            if self.signals[idx].signal == Signal::SIGTERM {
                found = true;
                break;
            }
            idx = idx + 1;
        }
        let ghost sig = self.signals@;
        proof {
            if found {
                assert(sig[idx as int].signal == Signal::SIGTERM);
                let c = default_signal_index(sig);
                assert(c == idx as int) by {
                    if c < idx {
                    } else if c > idx {
                        assert(sig[idx as int].signal == Signal::SIGTERM);
                    }
                }
            } else {
                assert(idx == sig.len());
                assert(!exists|i: int| 0 <= i < sig.len() && (#[trigger] sig[i]).signal == Signal::SIGTERM);
            }
        }
        let signal_index = if found { idx } else { 0 };
        self.mode = Mode::SignalSelect { signal_index };
    }

    /// Snapshots the chosen signal and the selected record for confirmation.
    /// Nothing happens outside the signal list, when the signal index is past
    /// the list, or when no record is selected.
    pub fn request_signal_confirmation(&mut self)
        ensures
            requested(old(self), final(self)),
            old(self).wf() ==> final(self).wf(),
    {
        let signal_index = match self.mode {
            Mode::SignalSelect { signal_index } => signal_index,
            _ => return ,
        };
        if signal_index >= self.signals.len() {
            return ;
        }
        let option = self.signals[signal_index];
        let pending = {
            let shown = self.filtered_items();
            if self.selected >= shown.len() {
                return ;
            }
            let process: &PortProc = shown[self.selected];
            assert(*process == targets(shown@)[self.selected as int]);
            PendingSignal {
                signal: option.signal,
                signal_name: option.name,
                signal_number: option.number,
                pid: process.pid,
                proc_name: process.proc_name.clone(),
            }
        };
        self.pending_signal = Some(pending);
        self.mode = Mode::SignalConfirm;
    }

    /// Drops the pending signal and returns to normal mode.
    pub fn cancel_signal_confirmation(&mut self)
        ensures
            final(self).pending_signal is None,
            final(self).mode == Mode::Normal,
            final(self).same_data(old(self)),
            final(self).selected == old(self).selected,
            old(self).wf() ==> final(self).wf(),
    {
        self.pending_signal = None;
        self.mode = Mode::Normal;
    }

    /// Moves the selection down one shown record, wrapping past the last.
    pub fn next(&mut self)
        requires
            old(self).shown().len() == 0 || old(self).selected == old(self).shown().len() - 1
                || old(self).selected < usize::MAX,
        ensures
            final(self).selected == if old(self).shown().len() == 0 {
                old(self).selected as int
            } else {
                next_index(old(self).selected as int, old(self).shown().len() as int)
            },
            final(self).same_data(old(self)),
            final(self).mode == old(self).mode,
            final(self).pending_signal == old(self).pending_signal,
            old(self).wf() ==> final(self).wf(),
    {
        let n = self.filtered_len();
        if n == 0 {
            return ;
        }
        self.selected = if self.selected == n - 1 {
            0
        } else {
            self.selected + 1
        };
    }

    /// Moves the selection up one shown record, wrapping above the first.
    pub fn previous(&mut self)
        ensures
            final(self).selected == if old(self).shown().len() == 0 {
                old(self).selected as int
            } else {
                previous_index(old(self).selected as int, old(self).shown().len() as int)
            },
            final(self).same_data(old(self)),
            final(self).mode == old(self).mode,
            final(self).pending_signal == old(self).pending_signal,
            old(self).wf() ==> final(self).wf(),
    {
        let n = self.filtered_len();
        if n == 0 {
            return ;
        }
        self.selected = if self.selected == 0 {
            n - 1
        } else {
            self.selected - 1
        };
    }

    /// Moves to the next signal of the list, wrapping past the last; only in
    /// the signal list.
    pub fn next_signal(&mut self)
        requires
            old(self).mode matches Mode::SignalSelect { signal_index } ==> old(self).signals.len()
                > 0 && signal_index < usize::MAX,
        ensures
            final(self).mode == match old(self).mode {
                Mode::SignalSelect { signal_index } => Mode::SignalSelect {
                    signal_index: ((signal_index + 1) % (old(self).signals.len() as int)) as usize,
                },
                m => m,
            },
            final(self).same_data(old(self)),
            final(self).selected == old(self).selected,
            final(self).pending_signal == old(self).pending_signal,
            old(self).wf() ==> final(self).wf(),
    {
        if let Mode::SignalSelect { signal_index } = self.mode {
            self.mode = Mode::SignalSelect {
                signal_index: (signal_index + 1) % self.signals.len(),
            };
        }
    }

    /// Moves to the previous signal of the list, wrapping above the first;
    /// only in the signal list.
    pub fn previous_signal(&mut self)
        requires
            old(self).mode matches Mode::SignalSelect { .. } ==> old(self).signals.len() > 0,
        ensures
            final(self).mode == match old(self).mode {
                Mode::SignalSelect { signal_index } => Mode::SignalSelect {
                    signal_index: previous_index(
                        signal_index as int,
                        old(self).signals.len() as int,
                    ) as usize,
                },
                m => m,
            },
            final(self).same_data(old(self)),
            final(self).selected == old(self).selected,
            final(self).pending_signal == old(self).pending_signal,
            old(self).wf() ==> final(self).wf(),
    {
        if let Mode::SignalSelect { signal_index } = self.mode {
            let i = if signal_index == 0 {
                self.signals.len() - 1
            } else {
                signal_index - 1
            };
            self.mode = Mode::SignalSelect { signal_index: i };
        }
    }

    /// Answers a key in the signal list: Esc closes it, Up/`k` and Down/`j`
    /// move, Enter asks for confirmation.
    pub fn handle_signal_selection_key(&mut self, key: KeyCode)
        requires
            key_in_range(old(self), key),
        ensures
            selection_key_answered(old(self), final(self), key),
            old(self).wf() && old(self).mode != Mode::SignalConfirm ==> final(self).wf(),
    {
        match key {
            KeyCode::Esc => self.mode = Mode::Normal,
            KeyCode::Up | KeyCode::Char('k') => self.previous_signal(),
            KeyCode::Down | KeyCode::Char('j') => self.next_signal(),
            KeyCode::Enter => self.request_signal_confirmation(),
            _ => {},
        }
    }

    /// Answers a key while a signal waits for confirmation: `y` hands the
    /// pending signal out and returns to normal mode, `n` or Esc drop it;
    /// other keys, and any key outside confirmation, change nothing.
    pub fn handle_signal_confirmation_key(&mut self, key: KeyCode) -> (res: Option<PendingSignal>)
        ensures
            final(self).same_data(old(self)),
            final(self).selected == old(self).selected,
            old(self).mode != Mode::SignalConfirm ==> res is None && final(self).mode == old(
                self,
            ).mode && final(self).pending_signal == old(self).pending_signal,
            old(self).mode == Mode::SignalConfirm && key == KeyCode::Char('y') ==> res
                == old(self).pending_signal && final(self).mode == Mode::Normal
                && final(self).pending_signal is None,
            old(self).mode == Mode::SignalConfirm && (key == KeyCode::Char('n') || key
                == KeyCode::Esc) ==> res is None && final(self).mode == Mode::Normal
                && final(self).pending_signal is None,
            old(self).mode == Mode::SignalConfirm && !(key == KeyCode::Char('y') || key
                == KeyCode::Char('n') || key == KeyCode::Esc) ==> res is None && final(self).mode
                == old(self).mode && final(self).pending_signal == old(self).pending_signal,
            old(self).wf() ==> final(self).wf(),
    {
        if self.mode != Mode::SignalConfirm {
            return None;
        }
        match key {
            KeyCode::Char('y') => {
                self.mode = Mode::Normal;
                self.pending_signal.take()
            },
            KeyCode::Char('n') | KeyCode::Esc => {
                self.cancel_signal_confirmation();
                None
            },
            _ => None,
        }
    }

    /// Replaces the records and clamps the selection to the shown records, or
    /// to all records when none is shown.
    pub fn refresh_items(&mut self, new_items: Vec<PortProc>)
        ensures
            final(self).items@ == new_items@,
            final(self).filter@ == old(self).filter@,
            final(self).status_message == old(self).status_message,
            final(self).signals@ == old(self).signals@,
            final(self).mode == old(self).mode,
            final(self).pending_signal == old(self).pending_signal,
            final(self).selected == clamped_index(
                old(self).selected as int,
                filtered(new_items@, old(self).filter@).len() as int,
                new_items@.len() as int,
            ),
            final(self).shown().len() > 0 ==> final(self).selected < final(self).shown().len(),
            old(self).wf() ==> final(self).wf(),
    {
        self.items = new_items;
        let filtered_len = self.filtered_len();
        if filtered_len != 0 && self.selected >= filtered_len {
            self.selected = filtered_len - 1;
        } else if self.items.len() != 0 && self.selected >= self.items.len() {
            self.selected = self.items.len() - 1;
        }
    }

    /// Shows `message`, set at `now` nanoseconds.
    pub fn set_status(&mut self, message: String, now: u64)
        ensures
            final(self).status_message matches Some((m, t)) && m@ == message@ && t == now,
            final(self).items@ == old(self).items@,
            final(self).filter@ == old(self).filter@,
            final(self).signals@ == old(self).signals@,
            final(self).selected == old(self).selected,
            final(self).mode == old(self).mode,
            final(self).pending_signal == old(self).pending_signal,
            old(self).wf() ==> final(self).wf(),
    {
        self.status_message = Some((message, now));
    }

    /// Drops the status message once more than three seconds have passed
    /// since it was set.
    pub fn clear_expired_status(&mut self, now: u64)
        ensures
            final(self).status_message == match old(self).status_message {
                Some((m, t)) => if now > t && now - t > STATUS_MESSAGE_TIMEOUT_NANOS {
                    None
                } else {
                    Some((m, t))
                },
                None => None,
            },
            final(self).items@ == old(self).items@,
            final(self).filter@ == old(self).filter@,
            final(self).signals@ == old(self).signals@,
            final(self).selected == old(self).selected,
            final(self).mode == old(self).mode,
            final(self).pending_signal == old(self).pending_signal,
            old(self).wf() ==> final(self).wf(),
    {
        let expired = match &self.status_message {
            Some((_, t)) => now.saturating_sub(*t) > STATUS_MESSAGE_TIMEOUT_NANOS,
            None => false,
        };
        if expired {
            self.status_message = None;
        }
    }
    /// Whether `key` can be answered without overflow or division by zero;
    /// always so for a view that keeps its invariant.
    pub fn accepts_key(&self, key: KeyCode) -> (res: bool)
        ensures
            res == key_in_range(self, key),
    {
        let up = key == KeyCode::Up || key == KeyCode::Char('k');
        let down = key == KeyCode::Down || key == KeyCode::Char('j');
        match self.mode {
            Mode::Normal => {
                if down {
                    let n = self.filtered_len();
                    n == 0 || self.selected == n - 1 || self.selected < usize::MAX
                } else {
                    true
                }
            },
            Mode::SignalSelect { signal_index } => {
                if down {
                    self.signals.len() > 0 && signal_index < usize::MAX
                } else if up {
                    self.signals.len() > 0
                } else {
                    true
                }
            },
            _ => true,
        }
    }

    /// Answers a key in the current mode, as the interactive loop does; the
    /// returned action tells the caller what is left to do.
    pub fn handle_key(&mut self, key: KeyCode) -> (action: Action)
        requires
            key_in_range(old(self), key),
        ensures
            key_answered(old(self), final(self), key, &action),
            old(self).wf() ==> final(self).wf(),
    {
        match self.mode {
            Mode::Normal => match key {
                KeyCode::Char('q') => {
                    return Action::Quit;
                },
                KeyCode::Char('?') => {
                    self.mode = Mode::Help { scroll: 0 };
                },
                KeyCode::Char('s') => {
                    self.open_signal_selection();
                },
                KeyCode::Char('/') => {
                    self.mode = Mode::Filter;
                },
                KeyCode::Esc => {
                    if !self.filter.as_str().is_empty() {
                        self.filter = String::new();
                        self.selected = 0;
                    }
                },
                KeyCode::Up | KeyCode::Char('k') => self.previous(),
                KeyCode::Down | KeyCode::Char('j') => self.next(),
                _ => {},
            },
            Mode::SignalSelect { .. } => self.handle_signal_selection_key(key),
            Mode::SignalConfirm => {
                if let Some(pending) = self.handle_signal_confirmation_key(key) {
                    return Action::Send(pending);
                }
            },
            Mode::Filter => match key {
                KeyCode::Esc => {
                    self.filter = String::new();
                    self.selected = 0;
                    self.mode = Mode::Normal;
                },
                KeyCode::Enter => {
                    self.mode = Mode::Normal;
                },
                KeyCode::Backspace => {
                    pop_char(&mut self.filter);
                    self.selected = 0;
                },
                KeyCode::Char(c) => {
                    push_char(&mut self.filter, c);
                    self.selected = 0;
                },
                _ => {},
            },
            Mode::Help { scroll } => match key {
                KeyCode::Esc | KeyCode::Char('?') => {
                    self.mode = Mode::Normal;
                },
                KeyCode::Up | KeyCode::Char('k') => {
                    if scroll > 0 {
                        self.mode = Mode::Help { scroll: scroll - 1 };
                    }
                },
                KeyCode::Down | KeyCode::Char('j') => {
                    let max_scroll = help_max_scroll_exec();
                    if scroll < max_scroll {
                        self.mode = Mode::Help { scroll: scroll + 1 };
                    }
                },
                _ => {},
            },
        }
        Action::Continue
    }
}

/// Asking for confirmation targets the record in the selected row of the
/// shown list, not the record at that position among all records: the
/// pending signal carries that record's PID and process name, and under a
/// filter that record matches the filter. When no record is shown, or the
/// selection is past the shown records, nothing is snapshotted and the view
/// stays in the signal list.
pub proof fn lemma_request_targets_selected_row(old: &App, new: &App)
    requires
        requested(old, new),
    ensures
        old.mode is SignalSelect && new.mode == Mode::SignalConfirm ==> {
            let shown = filtered(old.items@, old.filter@);
            &&& old.selected < shown.len()
            &&& new.pending_signal matches Some(p) && p.pid == shown[old.selected as int].pid
                && p.proc_name@ == shown[old.selected as int].proc_name@
            &&& old.filter@.len() > 0 ==> item_matches(
                shown[old.selected as int]@,
                lowercase(old.filter@),
            )
        },
        old.selected >= filtered(old.items@, old.filter@).len() ==> new.mode == old.mode
            && new.pending_signal == old.pending_signal,
{
    lemma_shown_records(old.items@, old.filter@);
}

/// Esc in the filter prompt, or in normal mode, clears the filter: the
/// filter is empty, the first row is selected, the view is back in normal
/// mode and every record is shown again.
pub proof fn lemma_esc_clears_filter(old: &App, new: &App, action: &Action)
    requires
        old.mode == Mode::Filter || old.mode == Mode::Normal,
        key_answered(old, new, KeyCode::Esc, action),
    ensures
        new.filter@.len() == 0,
        new.mode == Mode::Normal,
        new.items@ == old.items@,
        new.shown() == new.items@,
        old.mode == Mode::Filter || old.filter@.len() > 0 ==> new.selected == 0,
        action is Continue,
{
    lemma_shown_records(new.items@, new.filter@);
}

/// Filtering ignores the case of process names: when the record's name and
/// the filter lowercase as ASCII text does (which `to_lowercase` states of
/// all ASCII text), a record whose small-lettered name holds the
/// small-lettered filter is shown.
pub proof fn lemma_filter_ignores_case(items: Seq<PortProc>, filter: Seq<char>, i: int)
    requires
        0 <= i < items.len(),
        lowercase(items[i].proc_name@) == ascii_lowercase(items[i].proc_name@),
        lowercase(filter) == ascii_lowercase(filter),
        contains(ascii_lowercase(items[i].proc_name@), ascii_lowercase(filter)),
    ensures
        filtered(items, filter).contains(items[i]),
{
    lemma_shown_records(items, filter);
    if filter.len() == 0 {
        assert(filtered(items, filter)[i] == items[i]);
    } else {
        assert(item_matches(items[i]@, lowercase(filter)));
    }
}

} // verus!
