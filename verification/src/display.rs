//! The cells of the port table and the plain-text table printed by the
//! one-shot and interval modes.
use vstd::prelude::*;
use vstd::utf8::encode_utf8;

use crate::number::{decimal, decimal_string};
use crate::scanner::{extract_port, port_of};
use crate::text::{
    chars_of, last_index_of, last_index_of_exec, pad_left, pad_right, push_padded_left,
    push_padded_right, push_str, string_of,
};
use crate::types::{proc_views, proto_text, PortProc, PortProcView};

verus! {

/// The address of a local address without its port: the text before its
/// last `':'`, or all of it when it has none.
pub open spec fn address_text(addr: Seq<char>) -> Seq<char> {
    match last_index_of(addr, ':') {
        Some(i) => addr.take(i),
        None => addr,
    }
}

/// The port of a local address as shown: its number, or `"?"`.
pub open spec fn port_text(addr: Seq<char>) -> Seq<char> {
    match port_of(addr) {
        Some(p) => decimal(p as nat),
        None => "?"@,
    }
}

/// The state of a record as shown: the state, or nothing.
pub open spec fn state_text(state: Option<Seq<char>>) -> Seq<char> {
    match state {
        Some(s) => s,
        None => seq![],
    }
}

/// The cells of one table row.
pub struct DisplayRow {
    pub proto: String,
    pub pid: String,
    pub state: String,
    pub address: String,
    pub port: String,
    pub process: String,
}

/// The cells of the row of `p`.
pub open spec fn row_cells(row: DisplayRow, p: PortProcView) -> bool {
    &&& row.proto@ == proto_text(p.proto)
    &&& row.pid@ == decimal(p.pid as nat)
    &&& row.state@ == state_text(p.state)
    &&& row.address@ == address_text(p.local_address)
    &&& row.port@ == port_text(p.local_address)
    &&& row.process@ == p.proc_name
}

fn address_of(addr: &str) -> (res: String)
    ensures
        res@ == address_text(addr@),
{
    let s = chars_of(addr);
    let end = match last_index_of_exec(&s, ':') {
        Some(i) => i,
        None => s.len(),
    };
    let res = string_of(&s, 0, end);
    assert(res@ =~= address_text(addr@));
    res
}

fn port_of_exec(addr: &str) -> (res: String)
    ensures
        res@ == port_text(addr@),
{
    match extract_port(addr) {
        Some(p) => decimal_string(p as u64),
        None => {
            let mut s = String::new();
            push_str(&mut s, "?");
            assert(s@ =~= "?"@);
            s
        },
    }
}

fn state_of(state: &Option<String>) -> (res: String)
    ensures
        res@ == state_text(
            match state {
                Some(s) => Some(s@),
                None => None,
            },
        ),
{
    match state {
        Some(s) => s.clone(),
        None => String::new(),
    }
}

/// The cells of the row of `item`: protocol, PID, state, address without
/// the port, port (or `"?"`) and process name.
pub fn display_row(item: &PortProc) -> (res: DisplayRow)
    ensures
        row_cells(res, item@),
{
    DisplayRow {
        proto: item.proto.to_string(),
        pid: decimal_string(item.pid as u64),
        state: state_of(&item.state),
        address: address_of(item.local_address.as_str()),
        port: port_of_exec(item.local_address.as_str()),
        process: item.proc_name.clone(),
    }
}

/// The number of bytes of `s` in UTF-8, as `str::len` gives it.
pub open spec fn byte_len(s: Seq<char>) -> nat {
    (encode_utf8(s).len() as usize) as nat
}

/// The largest byte length of a process name in `items`, or zero.
pub open spec fn longest_name(items: Seq<PortProcView>) -> nat
    decreases items.len(),
{
    if items.len() == 0 {
        0
    } else {
        let rest = longest_name(items.drop_last());
        let here = byte_len(items.last().proc_name);
        if here > rest {
            here
        } else {
            rest
        }
    }
}

/// The width of the process column: the longest process name, at least
/// seven.
pub open spec fn process_width(items: Seq<PortProcView>) -> nat {
    let m = longest_name(items);
    if m > 7 {
        m
    } else {
        7
    }
}

/// The header line of the table, in reverse video.
pub open spec fn header_text(width: nat) -> Seq<char> {
    "\x1b[7m"@ + pad_right("PROTO"@, 6) + " "@ + pad_left("PID"@, 6) + " "@ + pad_right(
        "STATE"@,
        10,
    ) + " "@ + pad_left("ADDRESS"@, 20) + " "@ + pad_right("PORT"@, 8) + " "@ + pad_right(
        "PROCESS"@,
        width,
    ) + "\x1b[0m"@
}

/// The line of a record in the table
/// (`"{:<6} {:>6} {:<10} {:>20} {:<8} {:<width$}"`).
pub open spec fn row_text(p: PortProcView, width: nat) -> Seq<char> {
    pad_right(proto_text(p.proto), 6) + " "@ + pad_left(decimal(p.pid as nat), 6) + " "@
        + pad_right(state_text(p.state), 10) + " "@ + pad_left(address_text(p.local_address), 20)
        + " "@ + pad_right(port_text(p.local_address), 8) + " "@ + pad_right(p.proc_name, width)
}

/// The lines of the table of `items`: a note when there are none, else the
/// header and one line per record.
pub open spec fn table_text(items: Seq<PortProcView>) -> Seq<Seq<char>> {
    if items.len() == 0 {
        seq!["No listening ports found."@]
    } else {
        let w = process_width(items);
        seq![header_text(w)] + items.map_values(|p: PortProcView| row_text(p, w))
    }
}

/// The text of strings.
pub open spec fn texts(v: Seq<String>) -> Seq<Seq<char>> {
    v.map_values(|s: String| s@)
}

fn push_row(s: &mut String, item: &PortProc, width: usize)
    ensures
        final(s)@ == old(s)@ + row_text(item@, width as nat),
{
    let row = display_row(item);
    push_padded_right(s, row.proto.as_str(), 6);
    push_str(s, " ");
    push_padded_left(s, row.pid.as_str(), 6);
    push_str(s, " ");
    push_padded_right(s, row.state.as_str(), 10);
    push_str(s, " ");
    push_padded_left(s, row.address.as_str(), 20);
    push_str(s, " ");
    push_padded_right(s, row.port.as_str(), 8);
    push_str(s, " ");
    push_padded_right(s, row.process.as_str(), width);
    assert(s@ =~= old(s)@ + row_text(item@, width as nat));
}

/// The lines that the one-shot and interval modes print for `items`.
pub fn table_lines(items: &[PortProc]) -> (res: Vec<String>)
    ensures
        texts(res@) == table_text(proc_views(items@)),
{
    let ghost v = proc_views(items@);
    let mut res: Vec<String> = Vec::new();
    if items.len() == 0 {
        let mut s = String::new();
        push_str(&mut s, "No listening ports found.");
        res.push(s);
        assert(texts(res@) =~= table_text(v));
        return res;
    }
    let mut longest: usize = 0;
    let mut i: usize = 0;
    while i < items.len()
        invariant
            i <= items.len(),
            v == proc_views(items@),
            longest as nat == longest_name(v.take(i as int)),
        decreases items.len() - i,
    {
        assert(v.take(i + 1).drop_last() =~= v.take(i as int));
        let n = items[i].proc_name.as_str().len();
        if n > longest {
            longest = n;
        }
        i = i + 1;
    }
    assert(v.take(items.len() as int) =~= v);
    let width: usize = if longest > 7 {
        longest
    } else {
        7
    };
    let mut header = String::new();
    push_str(&mut header, "\x1b[7m");
    push_padded_right(&mut header, "PROTO", 6);
    push_str(&mut header, " ");
    push_padded_left(&mut header, "PID", 6);
    push_str(&mut header, " ");
    push_padded_right(&mut header, "STATE", 10);
    push_str(&mut header, " ");
    push_padded_left(&mut header, "ADDRESS", 20);
    push_str(&mut header, " ");
    push_padded_right(&mut header, "PORT", 8);
    push_str(&mut header, " ");
    push_padded_right(&mut header, "PROCESS", width);
    push_str(&mut header, "\x1b[0m");
    assert(header@ =~= header_text(width as nat));
    res.push(header);
    let ghost rows = v.map_values(|p: PortProcView| row_text(p, width as nat));
    let mut j: usize = 0;
    while j < items.len()
        invariant
            j <= items.len(),
            v == proc_views(items@),
            width as nat == process_width(v),
            rows == v.map_values(|p: PortProcView| row_text(p, width as nat)),
            texts(res@) == seq![header_text(width as nat)] + rows.take(j as int),
        decreases items.len() - j,
    {
        let mut line = String::new();
        push_row(&mut line, &items[j], width);
        assert(v[j as int] == items@[j as int]@);
        assert(rows[j as int] == row_text(v[j as int], width as nat));
        let ghost before = res@;
        res.push(line);
        assert(texts(res@) =~= texts(before).push(line@));
        assert(texts(res@) =~= seq![header_text(width as nat)] + rows.take(j + 1));
        j = j + 1;
    }
    assert(rows.take(items.len() as int) =~= rows);
    res
}

} // verus!
