use loft::ports::{
    eq_ignore_ascii_case, is_system_process, kill_process, list_user_ports, port_row, PortEntry, ProcessRecord,
    SocketKind, SocketRecord,
};

fn tcp(port: u16, listening: bool, pids: Vec<u32>) -> SocketRecord {
    SocketRecord {
        kind: SocketKind::Tcp { listening, remote_addr: "0.0.0.0".into(), remote_port: 0 },
        local_addr: "127.0.0.1".into(),
        local_port: port,
        pids,
    }
}

fn udp(port: u16, pids: Vec<u32>) -> SocketRecord {
    SocketRecord { kind: SocketKind::Udp, local_addr: "0.0.0.0".into(), local_port: port, pids }
}

fn procs() -> Vec<ProcessRecord> {
    vec![
        ProcessRecord { pid: 100, name: "node.exe".into(), path: Some("C:/node/node.exe".into()) },
        ProcessRecord { pid: 200, name: "SVCHOST.EXE".into(), path: None },
        ProcessRecord { pid: 4, name: "System".into(), path: None },
    ]
}

fn summary(v: &[PortEntry]) -> Vec<(String, u16)> {
    v.iter().map(|e| (e.protocol.clone(), e.local_port)).collect()
}

#[test]
fn system_process_detection() {
    assert!(is_system_process("anything", 0));
    assert!(is_system_process("anything", 4));
    assert!(!is_system_process("anything", 5));
    assert!(is_system_process("svchost.exe", 1234));
    assert!(is_system_process("SvcHost.EXE", 1234));
    assert!(is_system_process("Memory Compression", 99));
    assert!(is_system_process("dwm.exe", 99));
    assert!(!is_system_process("chrome.exe", 99));
    assert!(!is_system_process("svchost", 99));
}

#[test]
fn ascii_case_comparison() {
    assert!(eq_ignore_ascii_case("LNK", "lnk"));
    assert!(!eq_ignore_ascii_case("lnk", "lnk "));
    assert!(!eq_ignore_ascii_case("É", "é"));
}

#[test]
fn rows_for_sockets() {
    let p = procs();
    assert!(port_row(&tcp(80, false, vec![100]), &p).is_none());
    let t = port_row(&tcp(8080, true, vec![100, 200]), &p).unwrap();
    assert_eq!(t.protocol, "TCP");
    assert_eq!(t.state, "Listen");
    assert_eq!(t.pid, Some(100));
    assert_eq!(t.process_name.as_deref(), Some("node.exe"));
    assert_eq!(t.process_path.as_deref(), Some("C:/node/node.exe"));
    assert_eq!(t.remote_addr.as_deref(), Some("0.0.0.0"));
    assert_eq!(t.remote_port, Some(0));
    assert!(!t.is_system);
    let u = port_row(&udp(53, vec![]), &p).unwrap();
    assert_eq!(u.protocol, "UDP");
    assert_eq!(u.state, "Listening");
    assert_eq!(u.pid, None);
    assert_eq!(u.remote_addr, None);
    let unknown = port_row(&udp(54, vec![777]), &p).unwrap();
    assert_eq!(unknown.pid, Some(777));
    assert_eq!(unknown.process_name, None);
    assert!(!unknown.is_system);
    let zero = port_row(&udp(55, vec![0]), &p).unwrap();
    assert_eq!(zero.process_name, None);
    let sys = port_row(&udp(56, vec![200]), &p).unwrap();
    assert!(sys.is_system);
}

#[test]
fn port_list_filters_and_sorts() {
    let sockets = vec![
        udp(53, vec![100]),
        tcp(8080, true, vec![100]),
        tcp(443, true, vec![200]),
        tcp(22, false, vec![100]),
        tcp(135, true, vec![4]),
        tcp(3000, true, vec![]),
        udp(5, vec![]),
    ];
    let out = list_user_ports(Ok(sockets.clone()), &procs(), None).unwrap();
    assert_eq!(
        summary(&out),
        vec![("TCP".to_string(), 3000), ("TCP".to_string(), 8080), ("UDP".to_string(), 5), ("UDP".to_string(), 53)]
    );
    let all = list_user_ports(Ok(sockets), &procs(), Some(true)).unwrap();
    assert_eq!(
        summary(&all),
        vec![
            ("TCP".to_string(), 135),
            ("TCP".to_string(), 443),
            ("TCP".to_string(), 3000),
            ("TCP".to_string(), 8080),
            ("UDP".to_string(), 5),
            ("UDP".to_string(), 53),
        ]
    );
    assert!(all[0].is_system && all[1].is_system);
}

#[test]
fn port_list_ties_keep_order() {
    let mut a = udp(7, vec![]);
    a.local_addr = "first".into();
    let mut b = udp(7, vec![]);
    b.local_addr = "second".into();
    let out = list_user_ports(Ok(vec![a, b]), &vec![], Some(false)).unwrap();
    assert_eq!(out[0].local_addr, "first");
    assert_eq!(out[1].local_addr, "second");
}

#[test]
fn port_list_error_message() {
    match list_user_ports(Err("access denied".into()), &procs(), None) {
        Err(m) => assert_eq!(m, "无法获取端口列表: access denied"),
        Ok(_) => panic!("expected error"),
    }
}

#[test]
fn kill_guards() {
    let p = procs();
    assert_eq!(kill_process(&p, 42), Err("未找到进程 PID=42".to_string()));
    assert_eq!(kill_process(&p, 200), Err("禁止终止系统进程".to_string()));
    assert_eq!(kill_process(&p, 4), Err("禁止终止系统进程".to_string()));
    assert_eq!(kill_process(&p, 100), Ok(100));
}
