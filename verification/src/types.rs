//! The records that a port scan produces.
use vstd::prelude::*;

use crate::text::push_char;

verus! {

/// Transport protocol of a socket.
#[derive(Debug, Clone, Copy, PartialEq, Eq, Structural)]
pub enum Proto {
    Tcp,
    Udp,
}

/// How a protocol is shown: `"TCP"` or `"UDP"`.
pub open spec fn proto_text(p: Proto) -> Seq<char> {
    match p {
        Proto::Tcp => seq!['T', 'C', 'P'],
        Proto::Udp => seq!['U', 'D', 'P'],
    }
}

impl Proto {
    /// The protocol's name in upper case.
    pub fn to_string(&self) -> (res: String)
        ensures
            res@ == proto_text(*self),
    {
        let mut s = String::new();
        match self {
            Proto::Tcp => {
                push_char(&mut s, 'T');
                push_char(&mut s, 'C');
                push_char(&mut s, 'P');
            },
            Proto::Udp => {
                push_char(&mut s, 'U');
                push_char(&mut s, 'D');
                push_char(&mut s, 'P');
            },
        }
        assert(s@ =~= proto_text(*self));
        s
    }
}

/// A process bound to a local socket.
#[derive(Debug, Clone)]
pub struct PortProc {
    pub proto: Proto,
    pub local_address: String,
    pub pid: u32,
    pub proc_name: String,
    pub state: Option<String>,
}

/// The contents of a `PortProc`, with its strings as character sequences.
pub struct PortProcView {
    pub proto: Proto,
    pub local_address: Seq<char>,
    pub pid: u32,
    pub proc_name: Seq<char>,
    pub state: Option<Seq<char>>,
}

impl View for PortProc {
    type V = PortProcView;

    open spec fn view(&self) -> PortProcView {
        PortProcView {
            proto: self.proto,
            local_address: self.local_address@,
            pid: self.pid,
            proc_name: self.proc_name@,
            state: match self.state {
                Some(s) => Some(s@),
                None => None,
            },
        }
    }
}

/// The contents of a sequence of records.
pub open spec fn proc_views(s: Seq<PortProc>) -> Seq<PortProcView> {
    s.map_values(|p: PortProc| p@)
}

} // verus!
