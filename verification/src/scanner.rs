//! Reading the listings of `ss -tulpn` and `lsof -nP -i` into records,
//! and ordering them by port.
use vstd::prelude::*;

use crate::number::{decimal, parse_u16, parse_u32, parse_unsigned};
use crate::sort::{
    insert_by_key, lemma_sort_permutation, lemma_sort_sorted, lemma_sort_stable, sort_by_key,
    sort_by_keys, sorted_by_key, with_key,
};
use crate::text::{
    chars_of, contains, contains_exec, find_from, find_from_exec, last_index_of,
    last_index_of_exec, lemma_find_from, lemma_lines_concat, lines, push_str, split_lines, split_words,
    starts_with, starts_with_exec, string_of, string_of_all, views, words,
};
use crate::types::{proc_views, PortProc, PortProcView, Proto};

verus! {

// ---------------------------------------------------------------------------
// Ports
// ---------------------------------------------------------------------------

/// The port of a local address: the text after its last `':'`, read as a
/// `u16`.
pub open spec fn port_of(addr: Seq<char>) -> Option<u16> {
    match last_index_of(addr, ':') {
        None => None,
        Some(i) => match parse_unsigned(addr.skip(i + 1), u16::MAX as nat) {
            Some(v) => Some(v as u16),
            None => None,
        },
    }
}

/// The last `c` of `a + [c] + b` is the one between them when `b` holds no
/// `c`.
proof fn lemma_last_index_after(a: Seq<char>, c: char, b: Seq<char>)
    requires
        forall|i: int| 0 <= i < b.len() ==> b[i] != c,
    ensures
        last_index_of(a + seq![c] + b, c) == Some(a.len() as int),
    decreases b.len(),
{
    let s = a + seq![c] + b;
    if b.len() == 0 {
        assert(s.last() == c);
    } else {
        assert(s.last() == b.last());
        lemma_last_index_after(a, c, b.drop_last());
        assert(s.drop_last() =~= a + seq![c] + b.drop_last());
    }
}

/// The port of `host:port` is `port`, whatever the host holds: the port is
/// read after the last colon.
pub proof fn lemma_port_of_host_port(host: Seq<char>, port: u16)
    ensures
        port_of(host + seq![':'] + decimal(port as nat)) == Some(port),
{
    let d = decimal(port as nat);
    crate::number::lemma_decimal_digits(port as nat);
    assert forall|i: int| 0 <= i < d.len() implies d[i] != ':' by {
        assert(crate::number::is_digit(d[i]));
    }
    lemma_last_index_after(host, ':', d);
    let s = host + seq![':'] + d;
    assert(s.skip(host.len() + 1int) =~= d);
    crate::number::lemma_parse_decimal(port as nat, u16::MAX as nat);
}

/// The key that records are ordered by: their port, with records without a
/// port first.
pub open spec fn port_key(p: PortProcView) -> int {
    match port_of(p.local_address) {
        None => -1,
        Some(n) => n as int,
    }
}

/// The port of a local address such as `"127.0.0.1:3000"` or `"[::1]:3000"`.
pub fn extract_port(local_address: &str) -> (res: Option<u16>)
    ensures
        res == port_of(local_address@),
{
    let s = chars_of(local_address);
    match last_index_of_exec(&s, ':') {
        None => None,
        Some(i) => {
            let rest = string_of(&s, i + 1, s.len());
            let digits = chars_of(rest.as_str());
            assert(s@.subrange(i + 1, s@.len() as int) =~= s@.skip(i + 1));
            parse_u16(&digits)
        },
    }
}

fn port_key_exec(p: &PortProc) -> (k: i64)
    ensures
        k as int == port_key(p@),
{
    match extract_port(p.local_address.as_str()) {
        None => -1,
        Some(n) => n as i64,
    }
}

/// The key that record contents are ordered by.
pub open spec fn view_port_key() -> spec_fn(PortProcView) -> int {
    |v: PortProcView| port_key(v)
}

/// Ordering records by port puts them in port order (records without a port
/// first), keeps every record, and keeps the order of records that share a
/// port.
pub proof fn lemma_port_order(records: Seq<PortProcView>, port: int)
    ensures
        sorted_by_key(sort_by_key(records, view_port_key()), view_port_key()),
        sort_by_key(records, view_port_key()).to_multiset() == records.to_multiset(),
        with_key(sort_by_key(records, view_port_key()), view_port_key(), port) == with_key(
            records,
            view_port_key(),
            port,
        ),
{
    lemma_sort_sorted(records, view_port_key());
    lemma_sort_permutation(records, view_port_key());
    lemma_sort_stable(records, view_port_key(), port);
}

/// The key of a record, read through its view.
pub open spec fn record_port_key() -> spec_fn(PortProc) -> int {
    |p: PortProc| port_key(p@)
}

proof fn lemma_insert_views(s: Seq<PortProc>, x: PortProc)
    ensures
        proc_views(insert_by_key(s, x, record_port_key())) == insert_by_key(
            proc_views(s),
            x@,
            view_port_key(),
        ),
    decreases s.len(),
{
    if s.len() == 0 || port_key(s.last()@) <= port_key(x@) {
        assert(proc_views(s.push(x)) =~= proc_views(s).push(x@));
    } else {
        lemma_insert_views(s.drop_last(), x);
        assert(proc_views(s.drop_last()) =~= proc_views(s).drop_last());
        assert(proc_views(insert_by_key(s.drop_last(), x, record_port_key()).push(s.last()))
            =~= proc_views(insert_by_key(s.drop_last(), x, record_port_key())).push(s.last()@));
    }
}

/// Sorting records by port and then taking their views is the same as
/// sorting the views by port.
proof fn lemma_sort_views(s: Seq<PortProc>)
    ensures
        proc_views(sort_by_key(s, record_port_key())) == sort_by_key(
            proc_views(s),
            view_port_key(),
        ),
    decreases s.len(),
{
    if s.len() > 0 {
        lemma_sort_views(s.drop_last());
        lemma_insert_views(sort_by_key(s.drop_last(), record_port_key()), s.last());
        assert(proc_views(s.drop_last()) =~= proc_views(s).drop_last());
    }
}

/// `items` ordered by port, records without a port first; records with the
/// same port keep their order (`sort_by_key(extract_port)`).
pub fn sort_by_port(items: Vec<PortProc>) -> (res: Vec<PortProc>)
    ensures
        proc_views(res@) == sort_by_key(proc_views(items@), view_port_key()),
{
    let mut keys: Vec<i64> = Vec::new();
    let mut i: usize = 0;
    while i < items.len()
        invariant
            i <= items.len(),
            keys.len() == i,
            forall|j: int| 0 <= j < i ==> keys@[j] == record_port_key()(#[trigger] items@[j]),
        decreases items.len() - i,
    {
        let k = port_key_exec(&items[i]);
        keys.push(k);
        i = i + 1;
    }
    let ghost orig = items@;
    let res = sort_by_keys(items, keys, Ghost(record_port_key()));
    proof {
        lemma_sort_views(orig);
    }
    res
}

// ---------------------------------------------------------------------------
// Shared helpers
// ---------------------------------------------------------------------------

fn same_chars(a: &Vec<char>, b: &Vec<char>) -> (res: bool)
    ensures
        res == (a@ == b@),
{
    if a.len() != b.len() {
        return false;
    }
    let r = crate::text::matches_at_exec(a, b, 0);
    assert(a@.subrange(0, b@.len() as int) =~= a@);
    r
}

fn string_from(t: &str) -> (res: String)
    ensures
        res@ == t@,
{
    let mut s = String::new();
    push_str(&mut s, t);
    assert(s@ =~= t@);
    s
}

// ---------------------------------------------------------------------------
// The port scanner interface
// ---------------------------------------------------------------------------

/// Reads the listing of a port scanning tool into records ordered by port.
pub trait PortScanner {
    /// `output` can be read without failing.
    spec fn accepts(&self, output: Seq<char>) -> bool;

    /// The records that `output` describes, in the order of its lines.
    spec fn records(&self, output: Seq<char>) -> Seq<PortProcView>;

    /// Whether `output` can be read without failing.
    fn can_scan(&self, output: &str) -> (res: bool)
        ensures
            res == self.accepts(output@),
    ;

    /// The records of `output`, ordered by port; records without a port come
    /// first and records with the same port keep the order of their lines.
    fn scan(&mut self, output: String) -> (res: Vec<PortProc>)
        requires
            old(self).accepts(output@),
        ensures
            proc_views(res@) == sort_by_key(
                old(self).records(output@),
                view_port_key(),
            ),
    ;
}

/// Which tool the scans use.
#[derive(Debug, Clone, Copy, PartialEq, Eq, Structural)]
pub enum ScannerKind {
    Lsof,
    Ss,
}

/// The tool to scan with: `lsof` when it is installed, else `ss`, else none.
pub fn choose_scanner(lsof_found: bool, ss_found: bool) -> (res: Option<ScannerKind>)
    ensures
        res == if lsof_found {
            Some(ScannerKind::Lsof)
        } else if ss_found {
            Some(ScannerKind::Ss)
        } else {
            None
        },
{
    if lsof_found {
        Some(ScannerKind::Lsof)
    } else if ss_found {
        Some(ScannerKind::Ss)
    } else {
        None
    }
}

// ---------------------------------------------------------------------------
// ss
// ---------------------------------------------------------------------------

/// The process name and PID in an `ss` process column such as
/// `users:(("chromium",pid=2440,fd=208))`: the name runs from after the first
/// `(("` to the next `",`, and the PID from after the first `pid=` to the next
/// `,`.
pub open spec fn process_info(s: Seq<char>) -> Option<(Seq<char>, u32)> {
    match find_from(s, "((\""@, 0) {
        None => None,
        Some(i) => {
            let name_start = i + "((\""@.len();
            match find_from(s, "\","@, name_start) {
                None => None,
                Some(name_end) => match find_from(s, "pid="@, 0) {
                    None => None,
                    Some(k) => {
                        let pid_start = k + "pid="@.len();
                        match find_from(s, ","@, pid_start) {
                            None => None,
                            Some(pid_end) => match parse_unsigned(
                                s.subrange(pid_start, pid_end),
                                u32::MAX as nat,
                            ) {
                                None => None,
                                Some(pid) => Some((s.subrange(name_start, name_end), pid as u32)),
                            },
                        }
                    },
                },
            }
        },
    }
}

/// The record of one `ss` line: the header and lines without process
/// information give none, nor do lines whose process column does not parse.
pub open spec fn ss_line(line: Seq<char>) -> Option<PortProcView> {
    if starts_with(line, "Netid"@) || !contains(line, "users:(("@) {
        None
    } else {
        let parts = words(line);
        match process_info(parts[6]) {
            None => None,
            Some((name, pid)) => Some(
                PortProcView {
                    proto: if parts[0] == "tcp"@ {
                        Proto::Tcp
                    } else {
                        Proto::Udp
                    },
                    local_address: parts[4],
                    pid,
                    proc_name: name,
                    state: Some(parts[1]),
                },
            ),
        }
    }
}

/// The records of a sequence of `ss` lines.
pub open spec fn ss_records_of(ls: Seq<Seq<char>>) -> Seq<PortProcView> {
    ls.filter_map(|l: Seq<char>| ss_line(l))
}

/// An `ss` line that is read (not the header, naming a process) has a
/// seventh column, which holds the process.
pub open spec fn ss_line_ok(line: Seq<char>) -> bool {
    (!starts_with(line, "Netid"@) && contains(line, "users:(("@)) ==> words(line).len() >= 7
}

/// Every line of an `ss` listing that is read has a process column.
pub open spec fn ss_accepts(output: Seq<char>) -> bool {
    forall|i: int| 0 <= i < lines(output).len() ==> ss_line_ok(#[trigger] lines(output)[i])
}

/// Reads the listing of `ss -tulpn`.
pub struct SsScanner;

impl SsScanner {
    /// The process name and PID in an `ss` process column.
    pub fn parse_process_info(&self, proc_str: &str) -> (res: Option<(String, u32)>)
        ensures
            match res {
                Some((name, pid)) => process_info(proc_str@) == Some((name@, pid)),
                None => process_info(proc_str@) is None,
            },
    {
        let s = chars_of(proc_str);
        let open = chars_of("((\"");
        let close = chars_of("\",");
        let pid_tag = chars_of("pid=");
        let comma = chars_of(",");
        proof {
            lemma_find_from(s@, open@, 0);
        }
        let i = match find_from_exec(&s, &open, 0) {
            None => return None,
            Some(i) => i,
        };
        let name_start = i + open.len();
        proof {
            lemma_find_from(s@, close@, name_start as int);
        }
        let name_end = match find_from_exec(&s, &close, name_start) {
            None => return None,
            Some(e) => e,
        };
        proof {
            lemma_find_from(s@, pid_tag@, 0);
        }
        let k = match find_from_exec(&s, &pid_tag, 0) {
            None => return None,
            Some(k) => k,
        };
        let pid_start = k + pid_tag.len();
        proof {
            lemma_find_from(s@, comma@, pid_start as int);
        }
        let pid_end = match find_from_exec(&s, &comma, pid_start) {
            None => return None,
            Some(e) => e,
        };
        let pid_text = string_of(&s, pid_start, pid_end);
        let pid_chars = chars_of(pid_text.as_str());
        let pid = match parse_u32(&pid_chars) {
            None => return None,
            Some(p) => p,
        };
        let name = string_of(&s, name_start, name_end);
        Some((name, pid))
    }

    fn scan_line(&self, line: &Vec<char>) -> (res: Option<PortProc>)
        requires
            ss_line_ok(line@),
        ensures
            match res {
                Some(p) => ss_line(line@) == Some(p@),
                None => ss_line(line@) is None,
            },
    {
        let header = chars_of("Netid");
        let users = chars_of("users:((");
        if starts_with_exec(line, &header) {
            return None;
        }
        if !contains_exec(line, &users) {
            return None;
        }
        let parts = split_words(line);
        assert(views(parts@)[6] == parts@[6]@);
        let column = string_of_all(&parts[6]);
        let (proc_name, pid) = match self.parse_process_info(column.as_str()) {
            None => return None,
            Some(info) => info,
        };
        let tcp = chars_of("tcp");
        assert(views(parts@)[0] == parts@[0]@);
        assert(views(parts@)[1] == parts@[1]@);
        assert(views(parts@)[4] == parts@[4]@);
        let proto = if same_chars(&parts[0], &tcp) {
            Proto::Tcp
        } else {
            Proto::Udp
        };
        let p = PortProc {
            proto,
            local_address: string_of_all(&parts[4]),
            pid,
            proc_name,
            state: Some(string_of_all(&parts[1])),
        };
        Some(p)
    }

    /// The records of an `ss -tulpn` listing, in the order of its lines.
    pub fn scan_ports(&self, output: String) -> (res: Vec<PortProc>)
        requires
            ss_accepts(output@),
        ensures
            proc_views(res@) == ss_records_of(lines(output@)),
    {
        let text = chars_of(output.as_str());
        let ls = split_lines(&text);
        let ghost all = lines(output@);
        let mut results: Vec<PortProc> = Vec::new();
        let mut i: usize = 0;
        while i < ls.len()
            invariant
                i <= ls.len(),
                views(ls@) == all,
                all == lines(output@),
                ss_accepts(output@),
                proc_views(results@) == ss_records_of(all.take(i as int)),
            decreases ls.len() - i,
        {
            assert(views(ls@)[i as int] == ls@[i as int]@);
            assert(ss_line_ok(all[i as int]));
            let r = self.scan_line(&ls[i]);
            proof {
                all.lemma_filter_map_take_succ(|l: Seq<char>| ss_line(l), i as int);
            }
            match r {
                Some(p) => {
                    results.push(p);
                    assert(proc_views(results@) =~= ss_records_of(all.take(i + 1)));
                },
                None => {
                    assert(proc_views(results@) =~= ss_records_of(all.take(i + 1)));
                },
            }
            i = i + 1;
        }
        assert(all.take(ls.len() as int) =~= all);
        results
    }
}

impl PortScanner for SsScanner {
    open spec fn accepts(&self, output: Seq<char>) -> bool {
        ss_accepts(output)
    }

    open spec fn records(&self, output: Seq<char>) -> Seq<PortProcView> {
        ss_records_of(lines(output))
    }

    fn can_scan(&self, output: &str) -> (res: bool) {
        let text = chars_of(output);
        let ls = split_lines(&text);
        let header = chars_of("Netid");
        let users = chars_of("users:((");
        let mut i: usize = 0;
        while i < ls.len()
            invariant
                i <= ls.len(),
                views(ls@) == lines(output@),
                header@ == "Netid"@,
                users@ == "users:(("@,
                forall|j: int| 0 <= j < i ==> ss_line_ok(#[trigger] lines(output@)[j]),
            decreases ls.len() - i,
        {
            let ghost l = lines(output@)[i as int];
            assert(views(ls@)[i as int] == ls@[i as int]@);
            assert(l == ls@[i as int]@);
            if !starts_with_exec(&ls[i], &header) && contains_exec(&ls[i], &users) {
                let parts = split_words(&ls[i]);
                assert(views(parts@).len() == parts@.len());
                assert(words(l).len() == parts.len());
                if parts.len() < 7 {
                    assert(!ss_line_ok(l));
                    assert(!ss_accepts(output@));
                    return false;
                }
                assert(ss_line_ok(l));
            } else {
                assert(ss_line_ok(l));
            }
            i = i + 1;
        }
        true
    }

    fn scan(&mut self, output: String) -> (res: Vec<PortProc>) {
        let items = self.scan_ports(output);
        sort_by_port(items)
    }
}

// ---------------------------------------------------------------------------
// lsof
// ---------------------------------------------------------------------------

/// The record of one `lsof` line: the header, connections (`->`), lines with
/// fewer than nine columns and lines whose PID does not parse give none.
pub open spec fn lsof_line(line: Seq<char>) -> Option<PortProcView> {
    if starts_with(line, "COMMAND"@) || contains(line, "->"@) {
        None
    } else {
        let parts = words(line);
        if parts.len() < 9 {
            None
        } else {
            match parse_unsigned(parts[1], u32::MAX as nat) {
                None => None,
                Some(pid) => {
                    let tcp = parts[7] == "TCP"@;
                    Some(
                        PortProcView {
                            proto: if tcp {
                                Proto::Tcp
                            } else {
                                Proto::Udp
                            },
                            local_address: parts[8],
                            pid: pid as u32,
                            proc_name: parts[0],
                            state: Some(
                                if tcp {
                                    "LISTEN"@
                                } else {
                                    "UNCONN"@
                                },
                            ),
                        },
                    )
                },
            }
        }
    }
}

/// The records of a sequence of `lsof` lines.
pub open spec fn lsof_records_of(ls: Seq<Seq<char>>) -> Seq<PortProcView> {
    ls.filter_map(|l: Seq<char>| lsof_line(l))
}

/// Picking and mapping the items of two sequences one after the other is
/// picking and mapping each.
proof fn lemma_filter_map_concat<A, B>(x: Seq<A>, y: Seq<A>, f: spec_fn(A) -> Option<B>)
    ensures
        (x + y).filter_map(f) == x.filter_map(f) + y.filter_map(f),
    decreases y.len(),
{
    if y.len() == 0 {
        assert(x + y =~= x);
        assert(x.filter_map(f) + y.filter_map(f) =~= x.filter_map(f));
    } else {
        lemma_filter_map_concat(x, y.drop_last(), f);
        assert((x + y).drop_last() =~= x + y.drop_last());
        assert((x + y).last() == y.last());
        let (fx, fy) = (x.filter_map(f), y.drop_last().filter_map(f));
        if let Some(v) = f(y.last()) {
            assert((fx + fy) + seq![v] =~= fx + (fy + seq![v]));
        }
    }
}

/// Each line is read on its own: scanning a listing that is empty or ends
/// with a line feed, followed by more, gives the records of the first part
/// followed by those of the second, for `ss` and for `lsof` alike.
pub proof fn lemma_scan_concat(a: Seq<char>, b: Seq<char>)
    requires
        a.len() == 0 || a.last() == '\n',
    ensures
        lsof_records_of(lines(a + b)) == lsof_records_of(lines(a)) + lsof_records_of(lines(b)),
        ss_records_of(lines(a + b)) == ss_records_of(lines(a)) + ss_records_of(lines(b)),
{
    lemma_lines_concat(a, b);
    lemma_filter_map_concat(lines(a), lines(b), |l: Seq<char>| lsof_line(l));
    lemma_filter_map_concat(lines(a), lines(b), |l: Seq<char>| ss_line(l));
}

/// Reads the listing of `lsof -nP -i`.
pub struct LsofScanner;

impl LsofScanner {
    fn scan_line(&self, line: &Vec<char>) -> (res: Option<PortProc>)
        ensures
            match res {
                Some(p) => lsof_line(line@) == Some(p@),
                None => lsof_line(line@) is None,
            },
    {
        let header = chars_of("COMMAND");
        let arrow = chars_of("->");
        if starts_with_exec(line, &header) {
            return None;
        }
        if contains_exec(line, &arrow) {
            return None;
        }
        let parts = split_words(line);
        if parts.len() < 9 {
            return None;
        }
        assert(views(parts@)[0] == parts@[0]@);
        assert(views(parts@)[1] == parts@[1]@);
        assert(views(parts@)[7] == parts@[7]@);
        assert(views(parts@)[8] == parts@[8]@);
        let pid = match parse_u32(&parts[1]) {
            None => return None,
            Some(p) => p,
        };
        let tcp_name = chars_of("TCP");
        let tcp = same_chars(&parts[7], &tcp_name);
        let state = if tcp {
            string_from("LISTEN")
        } else {
            string_from("UNCONN")
        };
        let p = PortProc {
            proto: if tcp {
                Proto::Tcp
            } else {
                Proto::Udp
            },
            local_address: string_of_all(&parts[8]),
            pid,
            proc_name: string_of_all(&parts[0]),
            state: Some(state),
        };
        Some(p)
    }

    /// The records of an `lsof -nP -i` listing, in the order of its lines.
    pub fn scan_ports(&self, output: String) -> (res: Vec<PortProc>)
        ensures
            proc_views(res@) == lsof_records_of(lines(output@)),
    {
        let text = chars_of(output.as_str());
        let ls = split_lines(&text);
        let ghost all = lines(output@);
        let mut results: Vec<PortProc> = Vec::new();
        let mut i: usize = 0;
        while i < ls.len()
            invariant
                i <= ls.len(),
                views(ls@) == all,
                proc_views(results@) == lsof_records_of(all.take(i as int)),
            decreases ls.len() - i,
        {
            assert(views(ls@)[i as int] == ls@[i as int]@);
            let r = self.scan_line(&ls[i]);
            proof {
                all.lemma_filter_map_take_succ(|l: Seq<char>| lsof_line(l), i as int);
            }
            match r {
                Some(p) => {
                    results.push(p);
                    assert(proc_views(results@) =~= lsof_records_of(all.take(i + 1)));
                },
                None => {
                    assert(proc_views(results@) =~= lsof_records_of(all.take(i + 1)));
                },
            }
            i = i + 1;
        }
        assert(all.take(ls.len() as int) =~= all);
        results
    }
}

impl PortScanner for LsofScanner {
    open spec fn accepts(&self, output: Seq<char>) -> bool {
        true
    }

    open spec fn records(&self, output: Seq<char>) -> Seq<PortProcView> {
        lsof_records_of(lines(output))
    }

    fn can_scan(&self, output: &str) -> (res: bool) {
        true
    }

    fn scan(&mut self, output: String) -> (res: Vec<PortProc>) {
        let items = self.scan_ports(output);
        sort_by_port(items)
    }
}

/// `a` comes no later than `b` in port order: no port first, then ports by
/// number.
pub open spec fn port_at_most(a: Option<u16>, b: Option<u16>) -> bool {
    match (a, b) {
        (None, _) => true,
        (Some(_), None) => false,
        (Some(x), Some(y)) => x <= y,
    }
}

/// Ordering records by port puts them in order of the port number itself
/// (records without a port first): of any two records, the earlier one's
/// port is at most the later one's.
pub proof fn lemma_sorted_by_port_number(records: Seq<PortProcView>)
    ensures
        forall|i: int, j: int|
            0 <= i < j < sort_by_key(records, view_port_key()).len() ==> port_at_most(
                port_of((#[trigger] sort_by_key(records, view_port_key())[i]).local_address),
                port_of((#[trigger] sort_by_key(records, view_port_key())[j]).local_address),
            ),
{
    let sorted = sort_by_key(records, view_port_key());
    lemma_sort_sorted(records, view_port_key());
    assert forall|i: int, j: int| 0 <= i < j < sorted.len() implies port_at_most(
        port_of((#[trigger] sorted[i]).local_address),
        port_of((#[trigger] sorted[j]).local_address),
    ) by {
        assert(view_port_key()(sorted[i]) <= view_port_key()(sorted[j]));
    }
}

/// Only the header line is skipped as a header: a line that does not begin
/// with `COMMAND`, holds no `->`, has at least nine words and a PID that
/// reads as a `u32` gives a record named by its first word, at the address
/// of its ninth, with that PID. The header and connections give none.
pub proof fn lemma_lsof_line_read(line: Seq<char>)
    ensures
        starts_with(line, "COMMAND"@) || contains(line, "->"@) ==> lsof_line(line) is None,
        !starts_with(line, "COMMAND"@) && !contains(line, "->"@) && words(line).len() >= 9
            && parse_unsigned(words(line)[1], u32::MAX as nat) is Some ==> {
            &&& lsof_line(line) matches Some(v)
            &&& v.proc_name == words(line)[0]
            &&& v.local_address == words(line)[8]
            &&& v.pid == parse_unsigned(words(line)[1], u32::MAX as nat).unwrap()
        },
{
}

/// Only the header line is skipped as a header in an `ss` listing too: a
/// line that does not begin with `Netid`, names a process (`users:((`) and
/// whose seventh word reads as a process gives a record with that process's
/// name and PID, at the address of its fifth word, in the state of its
/// second. The header and lines naming no process give none.
pub proof fn lemma_ss_line_read(line: Seq<char>)
    ensures
        starts_with(line, "Netid"@) || !contains(line, "users:(("@) ==> ss_line(line) is None,
        !starts_with(line, "Netid"@) && contains(line, "users:(("@) && process_info(
            words(line)[6],
        ) is Some ==> {
            &&& ss_line(line) matches Some(v)
            &&& v.proc_name == process_info(words(line)[6]).unwrap().0
            &&& v.pid == process_info(words(line)[6]).unwrap().1
            &&& v.local_address == words(line)[4]
            &&& v.state == Some(words(line)[1])
        },
{
}

} // verus!
