//! Ports in use: listening TCP sockets and UDP sockets with the processes
//! that own them, and the guard before a process is terminated.
use vstd::prelude::*;
use crate::env::{ascii_lower_chars, ascii_lower_seq};
use crate::numfmt::{decimal, decimal_chars};
use crate::sorting::{is_stable_order, key_lt, keys_view, lemma_stable_order_sorted, stable_order};
use crate::text::{chars_eq, chars_of, concat, string_from_chars};

verus! {

/// A socket as the operating system reports it.
#[derive(Debug, Clone)]
pub enum SocketKind {
    Tcp { listening: bool, remote_addr: String, remote_port: u16 },
    Udp,
}

/// One socket: its kind, local end, and the processes that hold it.
#[derive(Debug, Clone)]
pub struct SocketRecord {
    pub kind: SocketKind,
    pub local_addr: String,
    pub local_port: u16,
    pub pids: Vec<u32>,
}

/// A running process: its id, name and executable.
#[derive(Debug, Clone)]
pub struct ProcessRecord {
    pub pid: u32,
    pub name: String,
    pub path: Option<String>,
}

/// A row of the port list.
#[derive(Debug, Clone)]
pub struct PortEntry {
    pub protocol: String,
    pub local_addr: String,
    pub local_port: u16,
    pub remote_addr: Option<String>,
    pub remote_port: Option<u16>,
    pub state: String,
    pub pid: Option<u32>,
    pub process_name: Option<String>,
    pub process_path: Option<String>,
    pub is_system: bool,
}

/// `PortEntry` as plain values.
pub struct PortView {
    pub protocol: Seq<char>,
    pub local_addr: Seq<char>,
    pub local_port: u16,
    pub remote_addr: Option<Seq<char>>,
    pub remote_port: Option<u16>,
    pub state: Seq<char>,
    pub pid: Option<u32>,
    pub process_name: Option<Seq<char>>,
    pub process_path: Option<Seq<char>>,
    pub is_system: bool,
}

pub open spec fn opt_view(o: Option<String>) -> Option<Seq<char>> {
    match o {
        Some(s) => Some(s@),
        None => None,
    }
}

pub open spec fn port_view(e: PortEntry) -> PortView {
    PortView {
        protocol: e.protocol@,
        local_addr: e.local_addr@,
        local_port: e.local_port,
        remote_addr: opt_view(e.remote_addr),
        remote_port: e.remote_port,
        state: e.state@,
        pid: e.pid,
        process_name: opt_view(e.process_name),
        process_path: opt_view(e.process_path),
        is_system: e.is_system,
    }
}

pub open spec fn port_views(v: Seq<PortEntry>) -> Seq<PortView> {
    v.map_values(|e: PortEntry| port_view(e))
}

/// How many names `system_process_name_spec` lists.
pub const SYSTEM_PROCESS_COUNT: usize = 14;

/// Processes that must never be terminated from the port list.
pub open spec fn system_process_name_spec(k: int) -> Seq<char> {
    if k == 0 {
        "System"@
    } else if k == 1 {
        "Idle"@
    } else if k == 2 {
        "svchost.exe"@
    } else if k == 3 {
        "services.exe"@
    } else if k == 4 {
        "lsass.exe"@
    } else if k == 5 {
        "csrss.exe"@
    } else if k == 6 {
        "smss.exe"@
    } else if k == 7 {
        "winlogon.exe"@
    } else if k == 8 {
        "wininit.exe"@
    } else if k == 9 {
        "spoolsv.exe"@
    } else if k == 10 {
        "Registry"@
    } else if k == 11 {
        "Memory Compression"@
    } else if k == 12 {
        "RuntimeBroker.exe"@
    } else {
        "dwm.exe"@
    }
}

fn system_process_name(k: usize) -> (res: &'static str)
    requires
        k < SYSTEM_PROCESS_COUNT,
    ensures
        res@ == system_process_name_spec(k as int),
{
    if k == 0 {
        "System"
    } else if k == 1 {
        "Idle"
    } else if k == 2 {
        "svchost.exe"
    } else if k == 3 {
        "services.exe"
    } else if k == 4 {
        "lsass.exe"
    } else if k == 5 {
        "csrss.exe"
    } else if k == 6 {
        "smss.exe"
    } else if k == 7 {
        "winlogon.exe"
    } else if k == 8 {
        "wininit.exe"
    } else if k == 9 {
        "spoolsv.exe"
    } else if k == 10 {
        "Registry"
    } else if k == 11 {
        "Memory Compression"
    } else if k == 12 {
        "RuntimeBroker.exe"
    } else {
        "dwm.exe"
    }
}

/// Equal but for the case of ASCII letters (`str::eq_ignore_ascii_case`).
pub open spec fn eq_ascii_ci(a: Seq<char>, b: Seq<char>) -> bool {
    ascii_lower_seq(a) == ascii_lower_seq(b)
}

/// `str::eq_ignore_ascii_case`.
pub fn eq_ignore_ascii_case(a: &str, b: &str) -> (res: bool)
    ensures
        res == eq_ascii_ci(a@, b@),
{
    let la = ascii_lower_chars(&chars_of(a));
    let lb = ascii_lower_chars(&chars_of(b));
    chars_eq(la.as_slice(), lb.as_slice())
}

/// A process is a system process if its id is at most 4 or its name is one
/// of the listed names, ASCII case ignored.
pub open spec fn is_system_process_spec(name: Seq<char>, pid: u32) -> bool {
    pid <= 4 || exists|k: int| 0 <= k < SYSTEM_PROCESS_COUNT && #[trigger] eq_ascii_ci(name, system_process_name_spec(k))
}

/// The system processes are exactly those with an id of at most 4 and those
/// named System, Idle, svchost.exe, services.exe, lsass.exe, csrss.exe,
/// smss.exe, winlogon.exe, wininit.exe, spoolsv.exe, Registry, Memory
/// Compression, RuntimeBroker.exe or dwm.exe, ASCII case ignored.
pub proof fn lemma_system_process_names(name: Seq<char>, pid: u32)
    ensures
        pid <= 4 ==> is_system_process_spec(name, pid),
        is_system_process_spec("System"@, pid),
        is_system_process_spec("Idle"@, pid),
        is_system_process_spec("svchost.exe"@, pid),
        is_system_process_spec("services.exe"@, pid),
        is_system_process_spec("lsass.exe"@, pid),
        is_system_process_spec("csrss.exe"@, pid),
        is_system_process_spec("smss.exe"@, pid),
        is_system_process_spec("winlogon.exe"@, pid),
        is_system_process_spec("wininit.exe"@, pid),
        is_system_process_spec("spoolsv.exe"@, pid),
        is_system_process_spec("Registry"@, pid),
        is_system_process_spec("Memory Compression"@, pid),
        is_system_process_spec("RuntimeBroker.exe"@, pid),
        is_system_process_spec("dwm.exe"@, pid),
        is_system_process_spec(name, pid) ==> pid <= 4 || eq_ascii_ci(name, "System"@) || eq_ascii_ci(name, "Idle"@) || eq_ascii_ci(name, "svchost.exe"@) || eq_ascii_ci(name, "services.exe"@) || eq_ascii_ci(name, "lsass.exe"@) || eq_ascii_ci(name, "csrss.exe"@) || eq_ascii_ci(name, "smss.exe"@) || eq_ascii_ci(name, "winlogon.exe"@) || eq_ascii_ci(name, "wininit.exe"@) || eq_ascii_ci(name, "spoolsv.exe"@) || eq_ascii_ci(name, "Registry"@) || eq_ascii_ci(name, "Memory Compression"@) || eq_ascii_ci(name, "RuntimeBroker.exe"@) || eq_ascii_ci(name, "dwm.exe"@),
        eq_ascii_ci(name, "System"@) || eq_ascii_ci(name, "Idle"@) || eq_ascii_ci(name, "svchost.exe"@) || eq_ascii_ci(name, "services.exe"@) || eq_ascii_ci(name, "lsass.exe"@) || eq_ascii_ci(name, "csrss.exe"@) || eq_ascii_ci(name, "smss.exe"@) || eq_ascii_ci(name, "winlogon.exe"@) || eq_ascii_ci(name, "wininit.exe"@) || eq_ascii_ci(name, "spoolsv.exe"@) || eq_ascii_ci(name, "Registry"@) || eq_ascii_ci(name, "Memory Compression"@) || eq_ascii_ci(name, "RuntimeBroker.exe"@) || eq_ascii_ci(name, "dwm.exe"@) ==> is_system_process_spec(name, pid),
{
    assert(eq_ascii_ci("System"@, system_process_name_spec(0)));
    assert(eq_ascii_ci("Idle"@, system_process_name_spec(1)));
    assert(eq_ascii_ci("svchost.exe"@, system_process_name_spec(2)));
    assert(eq_ascii_ci("services.exe"@, system_process_name_spec(3)));
    assert(eq_ascii_ci("lsass.exe"@, system_process_name_spec(4)));
    assert(eq_ascii_ci("csrss.exe"@, system_process_name_spec(5)));
    assert(eq_ascii_ci("smss.exe"@, system_process_name_spec(6)));
    assert(eq_ascii_ci("winlogon.exe"@, system_process_name_spec(7)));
    assert(eq_ascii_ci("wininit.exe"@, system_process_name_spec(8)));
    assert(eq_ascii_ci("spoolsv.exe"@, system_process_name_spec(9)));
    assert(eq_ascii_ci("Registry"@, system_process_name_spec(10)));
    assert(eq_ascii_ci("Memory Compression"@, system_process_name_spec(11)));
    assert(eq_ascii_ci("RuntimeBroker.exe"@, system_process_name_spec(12)));
    assert(eq_ascii_ci("dwm.exe"@, system_process_name_spec(13)));
    if is_system_process_spec(name, pid) && pid > 4 {
        let k = choose|k: int| 0 <= k < SYSTEM_PROCESS_COUNT && #[trigger] eq_ascii_ci(name, system_process_name_spec(k));
        assert(0 <= k < 14);
    }
}

/// A process a request names is refused when it is a system process: its
/// id is at most 4 or it is named like one of them (see
/// `lemma_system_process_names`).
pub proof fn lemma_kill_refuses_system(procs: Seq<ProcessRecord>, pid: u32)
    ensures
        find_process(procs, pid) is None ==> kill_refusal(procs, pid) == Some("未找到进程 PID="@ + decimal(pid as nat)),
        find_process(procs, pid) matches Some(r) && (pid <= 4 || eq_ascii_ci(r.name@, "System"@) || eq_ascii_ci(r.name@, "Idle"@) || eq_ascii_ci(r.name@, "svchost.exe"@) || eq_ascii_ci(r.name@, "services.exe"@) || eq_ascii_ci(r.name@, "lsass.exe"@) || eq_ascii_ci(r.name@, "csrss.exe"@) || eq_ascii_ci(r.name@, "smss.exe"@) || eq_ascii_ci(r.name@, "winlogon.exe"@) || eq_ascii_ci(r.name@, "wininit.exe"@) || eq_ascii_ci(r.name@, "spoolsv.exe"@) || eq_ascii_ci(r.name@, "Registry"@) || eq_ascii_ci(r.name@, "Memory Compression"@) || eq_ascii_ci(r.name@, "RuntimeBroker.exe"@) || eq_ascii_ci(r.name@, "dwm.exe"@)) ==> kill_refusal(procs, pid) == Some("禁止终止系统进程"@),
{
    if find_process(procs, pid) is Some {
        lemma_system_process_names(find_process(procs, pid)->Some_0.name@, pid);
    }
}

/// Whether the process is a system process (see `is_system_process_spec`).
pub fn is_system_process(name: &str, pid: u32) -> (res: bool)
    ensures
        res == is_system_process_spec(name@, pid),
{
    if pid <= 4 {
        return true;
    }
    let lname = ascii_lower_chars(&chars_of(name));
    let mut k: usize = 0;
    while k < SYSTEM_PROCESS_COUNT
        invariant
            k <= SYSTEM_PROCESS_COUNT,
            lname@ == ascii_lower_seq(name@),
            forall|j: int| 0 <= j < k ==> !#[trigger] eq_ascii_ci(name@, system_process_name_spec(j)),
        decreases SYSTEM_PROCESS_COUNT - k,
    {
        let cand = ascii_lower_chars(&chars_of(system_process_name(k)));
        if chars_eq(lname.as_slice(), cand.as_slice()) {
            assert(eq_ascii_ci(name@, system_process_name_spec(k as int)));
            return true;
        }
        k += 1;
    }
    false
}

/// The first process with id `pid`.
pub open spec fn find_process(procs: Seq<ProcessRecord>, pid: u32) -> Option<ProcessRecord>
    decreases procs.len(),
{
    if procs.len() == 0 {
        None
    } else if procs[0].pid == pid {
        Some(procs[0])
    } else {
        find_process(procs.drop_first(), pid)
    }
}

fn lookup_process(procs: &Vec<ProcessRecord>, pid: u32) -> (res: Option<usize>)
    ensures
        match res {
            Some(i) => i < procs.len() && find_process(procs@, pid) == Some(procs@[i as int]),
            None => find_process(procs@, pid) is None,
        },
{
    let mut i: usize = 0;
    assert(procs@.skip(0) =~= procs@);
    while i < procs.len()
        invariant
            i <= procs.len(),
            find_process(procs@, pid) == find_process(procs@.skip(i as int), pid),
        decreases procs.len() - i,
    {
        assert(procs@.skip(i as int)[0] == procs@[i as int]);
        if procs[i].pid == pid {
            return Some(i);
        }
        assert(procs@.skip(i as int).drop_first() =~= procs@.skip(i + 1));
        i += 1;
    }
    assert(procs@.skip(i as int).len() == 0);
    None
}

/// The row for socket `s`, if it is listed at all: TCP sockets only while
/// listening. The owner is the first process the socket names, looked up in
/// `procs` where its id is not 0.
pub open spec fn socket_row(s: SocketRecord, procs: Seq<ProcessRecord>) -> Option<PortView> {
    let pid: Option<u32> = if s.pids@.len() > 0 {
        Some(s.pids@[0])
    } else {
        None
    };
    let owner: Option<ProcessRecord> = match pid {
        Some(p) => if p > 0 {
            find_process(procs, p)
        } else {
            None
        },
        None => None,
    };
    let name = match owner {
        Some(r) => Some(r.name@),
        None => None,
    };
    let path = match owner {
        Some(r) => opt_view(r.path),
        None => None,
    };
    let sys = match owner {
        Some(r) => is_system_process_spec(r.name@, r.pid),
        None => false,
    };
    match s.kind {
        SocketKind::Tcp { listening, remote_addr, remote_port } => if listening {
            Some(
                PortView {
                    protocol: "TCP"@,
                    local_addr: s.local_addr@,
                    local_port: s.local_port,
                    remote_addr: Some(remote_addr@),
                    remote_port: Some(remote_port),
                    state: "Listen"@,
                    pid,
                    process_name: name,
                    process_path: path,
                    is_system: sys,
                },
            )
        } else {
            None
        },
        SocketKind::Udp => Some(
            PortView {
                protocol: "UDP"@,
                local_addr: s.local_addr@,
                local_port: s.local_port,
                remote_addr: None,
                remote_port: None,
                state: "Listening"@,
                pid,
                process_name: name,
                process_path: path,
                is_system: sys,
            },
        ),
    }
}

/// The rows of `sockets` in their order, system processes' rows only when
/// `include_system`.
pub open spec fn port_rows(sockets: Seq<SocketRecord>, procs: Seq<ProcessRecord>, include_system: bool) -> Seq<PortView>
    decreases sockets.len(),
{
    if sockets.len() == 0 {
        Seq::empty()
    } else {
        let prev = port_rows(sockets.drop_last(), procs, include_system);
        match socket_row(sockets.last(), procs) {
            Some(v) => if include_system || !v.is_system {
                prev.push(v)
            } else {
                prev
            },
            None => prev,
        }
    }
}

/// Rows are ordered by protocol, then port.
pub open spec fn port_key(v: PortView) -> (Seq<char>, u64) {
    (v.protocol, v.local_port as u64)
}

pub open spec fn port_keys(rows: Seq<PortView>) -> Seq<(Seq<char>, u64)> {
    rows.map_values(|v: PortView| port_key(v))
}

/// `out` is `rows` stably sorted by `port_key`.
pub open spec fn ports_sorted_from(rows: Seq<PortView>, out: Seq<PortView>) -> bool {
    exists|p: Seq<usize>|
        #[trigger] is_stable_order(port_keys(rows), p) && out.len() == rows.len() && forall|i: int|
            0 <= i < out.len() ==> out[i] == rows[#[trigger] p[i] as int]
}

fn opt_clone(o: &Option<String>) -> (res: Option<String>)
    ensures
        res == *o,
{
    match o {
        Some(s) => Some(s.clone()),
        None => None,
    }
}

fn clone_entry(e: &PortEntry) -> (res: PortEntry)
    ensures
        port_view(res) == port_view(*e),
{
    PortEntry {
        protocol: e.protocol.clone(),
        local_addr: e.local_addr.clone(),
        local_port: e.local_port,
        remote_addr: opt_clone(&e.remote_addr),
        remote_port: e.remote_port,
        state: e.state.clone(),
        pid: e.pid,
        process_name: opt_clone(&e.process_name),
        process_path: opt_clone(&e.process_path),
        is_system: e.is_system,
    }
}

/// The row for one socket (see `socket_row`).
pub fn port_row(s: &SocketRecord, procs: &Vec<ProcessRecord>) -> (res: Option<PortEntry>)
    ensures
        match res {
            Some(e) => socket_row(*s, procs@) == Some(port_view(e)),
            None => socket_row(*s, procs@) is None,
        },
{
    let (protocol, remote_addr, remote_port, state) = match &s.kind {
        SocketKind::Tcp { listening, remote_addr, remote_port } => {
            if !*listening {
                return None;
            }
            (String::from_str("TCP"), Some(remote_addr.clone()), Some(*remote_port), String::from_str("Listen"))
        },
        SocketKind::Udp => (String::from_str("UDP"), None, None, String::from_str("Listening")),
    };
    let pid: Option<u32> = if s.pids.len() > 0 {
        Some(s.pids[0])
    } else {
        None
    };
    let (process_name, process_path, is_system) = match pid {
        Some(p) => {
            if p > 0 {
                match lookup_process(procs, p) {
                    Some(i) => {
                        let r = &procs[i];
                        (Some(r.name.clone()), opt_clone(&r.path), is_system_process(r.name.as_str(), r.pid))
                    },
                    None => (None, None, false),
                }
            } else {
                (None, None, false)
            }
        },
        None => (None, None, false),
    };
    Some(
        PortEntry {
            protocol,
            local_addr: s.local_addr.clone(),
            local_port: s.local_port,
            remote_addr,
            remote_port,
            state,
            pid,
            process_name,
            process_path,
            is_system,
        },
    )
}

/// The port list from the sockets and processes the system reports, or the
/// reason the sockets could not be read: rows as `port_rows` gives them
/// (system processes' rows only when `include_system` is `Some(true)`),
/// stably sorted by protocol and port.
pub fn list_user_ports(
    sockets: Result<Vec<SocketRecord>, String>,
    procs: &Vec<ProcessRecord>,
    include_system: Option<bool>,
) -> (res: Result<Vec<PortEntry>, String>)
    ensures
        match sockets {
            Ok(s) => res matches Ok(out) && ports_sorted_from(
                port_rows(s@, procs@, include_system == Some(true)),
                port_views(out@),
            ),
            Err(e) => res matches Err(m) && m@ == "无法获取端口列表: "@ + e@,
        },
{
    let sockets = match sockets {
        Ok(s) => s,
        Err(e) => {
            return Err(concat("无法获取端口列表: ", e.as_str()));
        },
    };
    let with_system = match include_system {
        Some(b) => b,
        None => false,
    };
    let mut rows: Vec<PortEntry> = Vec::new();
    let mut i: usize = 0;
    while i < sockets.len()
        invariant
            i <= sockets.len(),
            port_views(rows@) == port_rows(sockets@.take(i as int), procs@, with_system),
        decreases sockets.len() - i,
    {
        let ghost before = rows@;
        let ghost taken = sockets@.take(i + 1);
        assert(taken.drop_last() =~= sockets@.take(i as int));
        assert(taken.last() == sockets@[i as int]);
        match port_row(&sockets[i], procs) {
            Some(e) => {
                if with_system || !e.is_system {
                    rows.push(e);
                    assert(port_views(rows@) =~= port_views(before).push(port_view(e)));
                }
            },
            None => {},
        }
        i += 1;
    }
    assert(sockets@.take(sockets.len() as int) =~= sockets@);
    let mut keys: Vec<(Vec<char>, u64)> = Vec::new();
    let mut k: usize = 0;
    while k < rows.len()
        invariant
            k <= rows.len(),
            keys_view(keys@) == port_keys(port_views(rows@)).take(k as int),
        decreases rows.len() - k,
    {
        let ghost before = keys@;
        let name = chars_of(rows[k].protocol.as_str());
        keys.push((name, rows[k].local_port as u64));
        assert(keys_view(keys@) =~= keys_view(before).push((rows@[k as int].protocol@, rows@[k as int].local_port as u64)));
        assert(port_keys(port_views(rows@))[k as int] == port_key(port_view(rows@[k as int])));
        assert(keys_view(keys@) =~= port_keys(port_views(rows@)).take(k + 1));
        k += 1;
    }
    assert(port_keys(port_views(rows@)).take(rows.len() as int) =~= port_keys(port_views(rows@)));
    let p = stable_order(&keys);
    let mut out: Vec<PortEntry> = Vec::new();
    let mut j: usize = 0;
    while j < p.len()
        invariant
            j <= p.len(),
            is_stable_order(port_keys(port_views(rows@)), p@),
            rows.len() == p.len(),
            out.len() == j,
            forall|t: int| 0 <= t < j ==> port_view(#[trigger] out@[t]) == port_view(rows@[p@[t] as int]),
        decreases p.len() - j,
    {
        assert(p@[j as int] < rows.len());
        out.push(clone_entry(&rows[p[j]]));
        j += 1;
    }
    assert(ports_sorted_from(port_views(rows@), port_views(out@))) by {
        assert(is_stable_order(port_keys(port_views(rows@)), p@));
        assert forall|t: int| 0 <= t < out.len() implies port_views(out@)[t] == port_views(rows@)[#[trigger] p@[t] as int] by {
            assert(p@[t] < rows.len());
        }
    }
    Ok(out)
}

/// The outcome of a request to terminate process `pid`: refused when no
/// process has that id (`未找到进程 PID=<pid>`) or when it is a system
/// process (`禁止终止系统进程`); otherwise what the termination returned.
pub open spec fn kill_refusal(procs: Seq<ProcessRecord>, pid: u32) -> Option<Seq<char>> {
    match find_process(procs, pid) {
        None => Some("未找到进程 PID="@ + decimal(pid as nat)),
        Some(r) => if is_system_process_spec(r.name@, pid) {
            Some("禁止终止系统进程"@)
        } else {
            None
        },
    }
}

/// Checks a request to terminate process `pid`: the refusal of
/// `kill_refusal`, or the pid that may be terminated. Nothing is terminated
/// here.
pub fn kill_process(procs: &Vec<ProcessRecord>, pid: u32) -> (res: Result<u32, String>)
    ensures
        match kill_refusal(procs@, pid) {
            Some(m) => res matches Err(e) && e@ == m,
            None => res == Ok::<u32, String>(pid),
        },
{
    match lookup_process(procs, pid) {
        None => {
            let mut v = chars_of("未找到进程 PID=");
            let mut digits = decimal_chars(pid as u64);
            v.append(&mut digits);
            Err(string_from_chars(v.as_slice()))
        },
        Some(i) => {
            if is_system_process(procs[i].name.as_str(), pid) {
                Err(String::from_str("禁止终止系统进程"))
            } else {
                Ok(pid)
            }
        },
    }
}

/// Without `include_system`, no system process's row is listed.
pub proof fn lemma_system_rows_hidden(sockets: Seq<SocketRecord>, procs: Seq<ProcessRecord>)
    ensures
        forall|i: int| 0 <= i < port_rows(sockets, procs, false).len() ==> !(#[trigger] port_rows(sockets, procs, false)[i]).is_system,
    decreases sockets.len(),
{
    if sockets.len() > 0 {
        lemma_system_rows_hidden(sockets.drop_last(), procs);
    }
}

/// Every row listed is a listening TCP socket or a UDP socket.
pub proof fn lemma_rows_listening(sockets: Seq<SocketRecord>, procs: Seq<ProcessRecord>, with_system: bool)
    ensures
        forall|i: int| 0 <= i < port_rows(sockets, procs, with_system).len() ==> {
            let v = #[trigger] port_rows(sockets, procs, with_system)[i];
            (v.protocol == "TCP"@ && v.state == "Listen"@) || (v.protocol == "UDP"@ && v.state == "Listening"@)
        },
    decreases sockets.len(),
{
    if sockets.len() > 0 {
        lemma_rows_listening(sockets.drop_last(), procs, with_system);
    }
}

/// The list comes out ordered by protocol, then port; rows that tie keep
/// their order.
pub proof fn lemma_port_list_sorted(rows: Seq<PortView>, out: Seq<PortView>)
    requires
        ports_sorted_from(rows, out),
    ensures
        forall|i: int, j: int| 0 <= i < j < out.len() ==> !key_lt(port_key(#[trigger] out[j]), port_key(#[trigger] out[i])),
{
    let p = choose|p: Seq<usize>|
        #[trigger] is_stable_order(port_keys(rows), p) && out.len() == rows.len() && forall|i: int|
            0 <= i < out.len() ==> out[i] == rows[#[trigger] p[i] as int];
    lemma_stable_order_sorted(port_keys(rows), p);
    assert forall|i: int, j: int| 0 <= i < j < out.len() implies !key_lt(port_key(#[trigger] out[j]), port_key(#[trigger] out[i])) by {
        assert(out[i] == rows[p[i] as int]);
        assert(out[j] == rows[p[j] as int]);
        assert(port_keys(rows)[p[i] as int] == port_key(rows[p[i] as int]));
        assert(port_keys(rows)[p[j] as int] == port_key(rows[p[j] as int]));
    }
}

} // verus!
