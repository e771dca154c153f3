//! The texts that the interactive view shows: the hint line, the messages in
//! place of the table, and the texts of the signal dialogs.
use vstd::prelude::*;

use crate::number::{decimal, push_decimal, push_signed_decimal, signed_decimal};
use crate::text::push_str;
use crate::tui::{App, PendingSignal};

verus! {

/// The bottom line of the view: the status message when there is one, else
/// how many records are shown and the key help.
pub open spec fn hint_text(status: Option<(String, u64)>, shown: nat, total: nat) -> Seq<char> {
    match status {
        Some((m, _)) => " "@ + m@ + " "@,
        None => " "@ + (if shown < total {
            "Showing "@ + decimal(shown) + " of "@ + decimal(total) + " processes"@
        } else {
            decimal(total) + " processes"@
        }) + " | ↑↓ or j/k: navigate | s: signal | /: filter | q: quit "@,
    }
}

/// The message shown in place of the table: when the filter hides every
/// record, when there are no records, or none when the table is shown.
pub open spec fn screen_message_text(app: &App) -> Option<Seq<char>> {
    if app.shown().len() == 0 && app.filter@.len() > 0 {
        Some("No processes match filter '"@ + app.filter@ + "'\nPress Esc to clear filter"@)
    } else if app.items@.len() == 0 {
        Some("No processes listening on ports"@)
    } else {
        None
    }
}

/// A signal as it is named in messages: `"{name} ({number})"`.
pub open spec fn signal_text(p: PendingSignal) -> Seq<char> {
    p.signal_name@ + " ("@ + signed_decimal(p.signal_number as int) + ")"@
}

/// The target of a signal as it is named in messages:
/// `"PID {pid} ({process})"`.
pub open spec fn target_text(pid: u32, name: Seq<char>) -> Seq<char> {
    "PID "@ + decimal(pid as nat) + " ("@ + name + ")"@
}

impl App {
    /// The bottom line of the view.
    pub fn hint(&self) -> (res: String)
        ensures
            res@ == hint_text(self.status_message, self.shown().len(), self.items@.len()),
    {
        let mut s = String::new();
        match &self.status_message {
            Some((message, _)) => {
                push_str(&mut s, " ");
                push_str(&mut s, message.as_str());
                push_str(&mut s, " ");
            },
            None => {
                let shown = self.filtered_len();
                let total = self.items.len();
                push_str(&mut s, " ");
                if shown < total {
                    push_str(&mut s, "Showing ");
                    push_decimal(&mut s, shown as u64);
                    push_str(&mut s, " of ");
                    push_decimal(&mut s, total as u64);
                    push_str(&mut s, " processes");
                } else {
                    push_decimal(&mut s, total as u64);
                    push_str(&mut s, " processes");
                }
                push_str(&mut s, " | ↑↓ or j/k: navigate | s: signal | /: filter | q: quit ");
            },
        }
        assert(s@ =~= hint_text(self.status_message, self.shown().len(), self.items@.len()));
        s
    }

    /// The message shown in place of the table, if any.
    pub fn screen_message(&self) -> (res: Option<String>)
        ensures
            match res {
                Some(m) => screen_message_text(self) == Some(m@),
                None => screen_message_text(self) is None,
            },
    {
        let shown = self.filtered_len();
        if shown == 0 && !self.filter.as_str().is_empty() {
            let mut s = String::new();
            push_str(&mut s, "No processes match filter '");
            push_str(&mut s, self.filter.as_str());
            push_str(&mut s, "'\nPress Esc to clear filter");
            assert(s@ =~= "No processes match filter '"@ + self.filter@
                + "'\nPress Esc to clear filter"@);
            Some(s)
        } else if self.items.len() == 0 {
            let mut s = String::new();
            push_str(&mut s, "No processes listening on ports");
            assert(s@ =~= "No processes listening on ports"@);
            Some(s)
        } else {
            None
        }
    }
}

fn push_signal(s: &mut String, p: &PendingSignal)
    ensures
        final(s)@ == old(s)@ + signal_text(*p),
{
    push_str(s, p.signal_name);
    push_str(s, " (");
    push_signed_decimal(s, p.signal_number as i64);
    push_str(s, ")");
    assert(s@ =~= old(s)@ + signal_text(*p));
}

fn push_target(s: &mut String, pid: u32, name: &str)
    ensures
        final(s)@ == old(s)@ + target_text(pid, name@),
{
    push_str(s, "PID ");
    push_decimal(s, pid as u64);
    push_str(s, " (");
    push_str(s, name);
    push_str(s, ")");
    assert(s@ =~= old(s)@ + target_text(pid, name@));
}

/// The title of the signal list: `" Send signal to PID {pid} ({name}) "`.
pub fn signal_modal_title(pid: u32, proc_name: &str) -> (res: String)
    ensures
        res@ == " Send signal to "@ + target_text(pid, proc_name@) + " "@,
{
    let mut s = String::new();
    push_str(&mut s, " Send signal to ");
    push_target(&mut s, pid, proc_name);
    push_str(&mut s, " ");
    s
}

/// The question of the confirmation dialog:
/// `"Send {signal} to PID {pid} ({name})?"`.
pub fn confirmation_message(p: &PendingSignal) -> (res: String)
    ensures
        res@ == "Send "@ + signal_text(*p) + " to "@ + target_text(p.pid, p.proc_name@) + "?"@,
{
    let mut s = String::new();
    push_str(&mut s, "Send ");
    push_signal(&mut s, p);
    push_str(&mut s, " to ");
    push_target(&mut s, p.pid, p.proc_name.as_str());
    push_str(&mut s, "?");
    s
}

/// The status after a signal was sent: `"Sent {signal} to PID {pid} ({name})"`.
pub fn sent_message(p: &PendingSignal) -> (res: String)
    ensures
        res@ == "Sent "@ + signal_text(*p) + " to "@ + target_text(p.pid, p.proc_name@),
{
    let mut s = String::new();
    push_str(&mut s, "Sent ");
    push_signal(&mut s, p);
    push_str(&mut s, " to ");
    push_target(&mut s, p.pid, p.proc_name.as_str());
    s
}

/// The status after sending failed: `"Failed to send signal to PID {pid}: {error}"`.
pub fn send_failed_message(pid: u32, error: &str) -> (res: String)
    ensures
        res@ == "Failed to send signal to PID "@ + decimal(pid as nat) + ": "@ + error@,
{
    let mut s = String::new();
    push_str(&mut s, "Failed to send signal to PID ");
    push_decimal(&mut s, pid as u64);
    push_str(&mut s, ": ");
    push_str(&mut s, error);
    assert(s@ =~= "Failed to send signal to PID "@ + decimal(pid as nat) + ": "@ + error@);
    s
}

} // verus!
