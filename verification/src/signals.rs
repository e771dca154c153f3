//! The signals that can be sent to a process, and how they are listed.
use vstd::prelude::*;

use nix::sys::signal::Signal as NixSignal;

use crate::number::{push_signed_decimal, signed_decimal};
use crate::sort::{lemma_sort_distinct_keys, lemma_sort_permutation, sort_by_key, sort_by_keys};
use crate::text::{pad_right, push_padded_right, push_str};

verus! {

/// The signals offered for managing services; fault signals such as
/// `SIGSEGV` are left out on purpose.
#[derive(Debug, Clone, Copy, PartialEq, Eq, Structural)]
pub enum Signal {
    SIGHUP,
    SIGINT,
    SIGQUIT,
    SIGKILL,
    SIGTERM,
    SIGSTOP,
    SIGCONT,
    SIGUSR1,
    SIGUSR2,
}

/// The numbers the operating system gives the curated signals, in the order
/// of `curated_signals` (`Signal as i32` in nix, which is libc's constant).
/// nix's `Signal` is a `#[repr(i32)]` enum, so distinct signals have distinct
/// numbers. The numbers of `SIGHUP`, `SIGINT`, `SIGQUIT`, `SIGKILL` and
/// `SIGTERM` are the same on every platform that libc covers; the others
/// differ between platforms, and only their range is stated.
#[verifier::external_body]
fn native_numbers() -> (res: Vec<i32>)
    ensures
        res.len() == 9,
        forall|i: int| 0 <= i < 9 ==> 1 <= #[trigger] res@[i] <= 31,
        forall|i: int, j: int| 0 <= i < 9 && 0 <= j < 9 && i != j ==> res@[i] != res@[j],
        res@[0] == 1 && res@[1] == 2 && res@[2] == 3 && res@[3] == 9 && res@[4] == 15,
{
    vec![
        NixSignal::SIGHUP as i32,
        NixSignal::SIGINT as i32,
        NixSignal::SIGQUIT as i32,
        NixSignal::SIGKILL as i32,
        NixSignal::SIGTERM as i32,
        NixSignal::SIGSTOP as i32,
        NixSignal::SIGCONT as i32,
        NixSignal::SIGUSR1 as i32,
        NixSignal::SIGUSR2 as i32,
    ]
}

/// The name of a signal, such as `"SIGTERM"`.
pub open spec fn signal_name(s: Signal) -> Seq<char> {
    match s {
        Signal::SIGHUP => "SIGHUP"@,
        Signal::SIGINT => "SIGINT"@,
        Signal::SIGQUIT => "SIGQUIT"@,
        Signal::SIGKILL => "SIGKILL"@,
        Signal::SIGTERM => "SIGTERM"@,
        Signal::SIGSTOP => "SIGSTOP"@,
        Signal::SIGCONT => "SIGCONT"@,
        Signal::SIGUSR1 => "SIGUSR1"@,
        Signal::SIGUSR2 => "SIGUSR2"@,
    }
}

/// What a signal is for.
pub open spec fn signal_description(s: Signal) -> Seq<char> {
    match s {
        Signal::SIGHUP => "Hangup / reload config"@,
        Signal::SIGINT => "Interrupt (Ctrl+C)"@,
        Signal::SIGQUIT => "Quit with core dump"@,
        Signal::SIGKILL => "Force kill"@,
        Signal::SIGTERM => "Graceful shutdown"@,
        Signal::SIGSTOP => "Pause process"@,
        Signal::SIGCONT => "Resume process"@,
        Signal::SIGUSR1 => "User-defined signal 1"@,
        Signal::SIGUSR2 => "User-defined signal 2"@,
    }
}

/// The curated signals, in the order they are declared.
pub open spec fn curated_signals() -> Seq<Signal> {
    seq![
        Signal::SIGHUP,
        Signal::SIGINT,
        Signal::SIGQUIT,
        Signal::SIGKILL,
        Signal::SIGTERM,
        Signal::SIGSTOP,
        Signal::SIGCONT,
        Signal::SIGUSR1,
        Signal::SIGUSR2,
    ]
}

/// A signal together with the number the system gives it and its texts.
#[derive(Clone, Copy)]
pub struct SignalOption {
    pub signal: Signal,
    pub number: i32,
    pub name: &'static str,
    pub description: &'static str,
}

/// The fields of an option agree with its signal.
pub open spec fn option_consistent(o: SignalOption) -> bool {
    &&& o.name@ == signal_name(o.signal)
    &&& o.description@ == signal_description(o.signal)
    &&& 1 <= o.number <= 31
    &&& o.signal == Signal::SIGHUP ==> o.number == 1
    &&& o.signal == Signal::SIGINT ==> o.number == 2
    &&& o.signal == Signal::SIGQUIT ==> o.number == 3
    &&& o.signal == Signal::SIGKILL ==> o.number == 9
    &&& o.signal == Signal::SIGTERM ==> o.number == 15
}

/// The key that options are ordered by: their number.
pub open spec fn number_key() -> spec_fn(SignalOption) -> int {
    |o: SignalOption| o.number as int
}

/// `opts` are the curated signals, in declaration order, with consistent
/// fields.
pub open spec fn curated_options(opts: Seq<SignalOption>) -> bool {
    &&& opts.len() == 9
    &&& forall|i: int| 0 <= i < 9 ==> (#[trigger] opts[i]).signal == curated_signals()[i]
    &&& forall|i: int| 0 <= i < 9 ==> option_consistent(#[trigger] opts[i])
    &&& forall|i: int, j: int| 0 <= i < 9 && 0 <= j < 9 && i != j ==> opts[i].number != opts[j].number
}

/// The position of `s` in `curated_signals`.
pub open spec fn curated_index(s: Signal) -> int {
    match s {
        Signal::SIGHUP => 0,
        Signal::SIGINT => 1,
        Signal::SIGQUIT => 2,
        Signal::SIGKILL => 3,
        Signal::SIGTERM => 4,
        Signal::SIGSTOP => 5,
        Signal::SIGCONT => 6,
        Signal::SIGUSR1 => 7,
        Signal::SIGUSR2 => 8,
    }
}

fn curated_index_exec(signal: Signal) -> (res: usize)
    ensures
        res == curated_index(signal),
        curated_signals()[res as int] == signal,
{
    match signal {
        Signal::SIGHUP => 0,
        Signal::SIGINT => 1,
        Signal::SIGQUIT => 2,
        Signal::SIGKILL => 3,
        Signal::SIGTERM => 4,
        Signal::SIGSTOP => 5,
        Signal::SIGCONT => 6,
        Signal::SIGUSR1 => 7,
        Signal::SIGUSR2 => 8,
    }
}

/// The option for `signal` with `number` and the signal's texts.
fn option_of(signal: Signal, number: i32) -> (res: SignalOption)
    ensures
        res.signal == signal,
        res.number == number,
        res.name@ == signal_name(signal),
        res.description@ == signal_description(signal),
{
    let (name, description): (&'static str, &'static str) = match signal {
        Signal::SIGHUP => ("SIGHUP", "Hangup / reload config"),
        Signal::SIGINT => ("SIGINT", "Interrupt (Ctrl+C)"),
        Signal::SIGQUIT => ("SIGQUIT", "Quit with core dump"),
        Signal::SIGKILL => ("SIGKILL", "Force kill"),
        Signal::SIGTERM => ("SIGTERM", "Graceful shutdown"),
        Signal::SIGSTOP => ("SIGSTOP", "Pause process"),
        Signal::SIGCONT => ("SIGCONT", "Resume process"),
        Signal::SIGUSR1 => ("SIGUSR1", "User-defined signal 1"),
        Signal::SIGUSR2 => ("SIGUSR2", "User-defined signal 2"),
    };
    SignalOption { signal, number, name, description }
}

impl SignalOption {
    /// The option for `signal`, with the number the system gives it.
    pub fn new(signal: Signal) -> (res: SignalOption)
        ensures
            res.signal == signal,
            option_consistent(res),
    {
        let numbers = native_numbers();
        let k = curated_index_exec(signal);
        option_of(signal, numbers[k])
    }
}

/// The curated signals ordered by their number; no two share a number.
pub fn available_signals() -> (res: Vec<SignalOption>)
    ensures
        exists|opts: Seq<SignalOption>|
            curated_options(opts) && res@ == #[trigger] sort_by_key(opts, number_key()),
        res.len() == 9,
        forall|i: int, j: int| 0 <= i < j < res.len() ==> res@[i].number < res@[j].number,
        forall|i: int| 0 <= i < res.len() ==> option_consistent(#[trigger] res@[i]),
        forall|k: int|
            #![trigger curated_signals()[k]]
            0 <= k < 9 ==> exists|i: int|
                0 <= i < res.len() && (#[trigger] res@[i]).signal == curated_signals()[k],
{
    let numbers = native_numbers();
    let mut opts: Vec<SignalOption> = Vec::new();
    opts.push(option_of(Signal::SIGHUP, numbers[0]));
    opts.push(option_of(Signal::SIGINT, numbers[1]));
    opts.push(option_of(Signal::SIGQUIT, numbers[2]));
    opts.push(option_of(Signal::SIGKILL, numbers[3]));
    opts.push(option_of(Signal::SIGTERM, numbers[4]));
    opts.push(option_of(Signal::SIGSTOP, numbers[5]));
    opts.push(option_of(Signal::SIGCONT, numbers[6]));
    opts.push(option_of(Signal::SIGUSR1, numbers[7]));
    opts.push(option_of(Signal::SIGUSR2, numbers[8]));
    let mut keys: Vec<i64> = Vec::new();
    let mut i: usize = 0;
    while i < opts.len()
        invariant
            i <= opts.len(),
            keys.len() == i,
            forall|j: int| 0 <= j < i ==> keys@[j] == number_key()(#[trigger] opts@[j]),
        decreases opts.len() - i,
    {
        keys.push(opts[i].number as i64);
        i = i + 1;
    }
    let ghost base = opts@;
    assert(forall|k: int| 0 <= k < 9 ==> (#[trigger] base[k]).number == numbers@[k]);
    assert(curated_options(base));
    let res = sort_by_keys(opts, keys, Ghost(number_key()));
    proof {
        broadcast use vstd::seq_lib::group_to_multiset_ensures;
        broadcast use vstd::seq_lib::to_multiset_len;

        lemma_sort_distinct_keys(base, number_key());
        lemma_sort_permutation(base, number_key());
        vstd::seq_lib::to_multiset_len(base);
        vstd::seq_lib::to_multiset_len(res@);
        assert(res@.len() == base.len());
        assert forall|i: int| 0 <= i < res.len() implies option_consistent(#[trigger] res@[i]) by {
            assert(res@.to_multiset().count(res@[i]) > 0);
            assert(base.contains(res@[i]));
        }
        assert forall|k: int| #![trigger curated_signals()[k]] 0 <= k < 9 implies exists|i: int|
            0 <= i < res.len() && (#[trigger] res@[i]).signal == curated_signals()[k] by {
            assert(base.to_multiset().count(base[k]) > 0);
            assert(res@.contains(base[k]));
        }
    }
    res
}

/// The text of a signal in the selection list: its name padded to seven
/// characters, then its number in parentheses.
pub open spec fn label_text(o: SignalOption) -> Seq<char> {
    pad_right(o.name@, 7) + " ("@ + signed_decimal(o.number as int) + ")"@
}

/// The label of a signal, such as `"SIGTERM (15)"` (`"{:<7} ({})"`).
pub fn signal_label(option: &SignalOption) -> (res: String)
    ensures
        res@ == label_text(*option),
{
    let mut s = String::new();
    push_padded_right(&mut s, option.name, 7);
    push_str(&mut s, " (");
    push_signed_decimal(&mut s, option.number as i64);
    push_str(&mut s, ")");
    assert(s@ =~= label_text(*option));
    s
}

/// A row of the signal selection list: the label, a dash and the
/// description (`"{label} - {description}"`).
pub fn signal_row_text(option: &SignalOption) -> (res: String)
    ensures
        res@ == label_text(*option) + " - "@ + option.description@,
{
    let mut s = signal_label(option);
    push_str(&mut s, " - ");
    push_str(&mut s, option.description);
    s
}

} // verus!
