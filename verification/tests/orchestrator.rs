use libfalcon::cli::select_targets;
use libfalcon::codec::{load, save};
use libfalcon::console::{proxy_step, ProxyAction, ProxyEvent, ProxyState, QUIT_SENTINEL};
use libfalcon::errors::Error;
use libfalcon::handle::{format_pid, format_port, format_uuid, parse_pid, parse_port, parse_uuid, RuntimeHandle, UuidVal};
use libfalcon::manager::{hyperstart_plan, start, start_all, stop, stop_all, StopWarning};
use libfalcon::snapshot::{run_pipeline, snapshot_plan, StepOutcome};
use libfalcon::store::{load_deployment, new_store, read_pid, read_port, read_uuid, save_deployment, write_pid, write_uuid, Store, StoreEntry};
use libfalcon::topology::{find_node, Deployment, Link, Mount, Node};

fn node(name: &str, image: &str, radix: u64, hi: u64, lo: u64, mounts: Vec<Mount>) -> Node {
    Node {
        name: name.to_string(),
        image: image.to_string(),
        cores: 2,
        memory: 1024,
        radix,
        id: UuidVal { hi, lo },
        mounts,
    }
}

fn duo() -> Deployment {
    Deployment {
        name: "duo".to_string(),
        nodes: vec![
            node(
                "router",
                "helios",
                3,
                0x1111_2222_3333_4444,
                0x5555_6666_7777_8888,
                vec![Mount {
                    source: "/src".to_string(),
                    destination: "/opt/src".to_string(),
                }],
            ),
            node("violin", "debian", 1, 0x9999_aaaa_bbbb_cccc, 0xdddd_eeee_ff00_1122, vec![]),
        ],
        links: vec![Link { a: 0, b: 1, mac: Some(0x0011_2233_4455) }],
    }
}

#[test]
fn topology_roundtrip() {
    let d = duo();
    let text = save(&d);
    let d2 = load(text.as_str()).expect("saved record must load");
    assert_eq!(d2.name, d.name);
    assert_eq!(d2.nodes.len(), d.nodes.len());
    for (a, b) in d2.nodes.iter().zip(d.nodes.iter()) {
        assert_eq!(a.name, b.name);
        assert_eq!(a.image, b.image);
        assert_eq!(a.cores, b.cores);
        assert_eq!(a.memory, b.memory);
        assert_eq!(a.radix, b.radix);
        assert_eq!(a.id, b.id);
        assert_eq!(a.mounts.len(), b.mounts.len());
        for (m, n) in a.mounts.iter().zip(b.mounts.iter()) {
            assert_eq!(m.source, n.source);
            assert_eq!(m.destination, n.destination);
        }
    }
    assert_eq!(d2.links, d.links);
}

#[test]
fn topology_roundtrip_empty() {
    let d = Deployment { name: String::new(), nodes: vec![], links: vec![] };
    let d2 = load(save(&d).as_str()).expect("empty deployment must load");
    assert_eq!(d2.name, "");
    assert_eq!(d2.nodes.len(), 0);
    assert_eq!(d2.links.len(), 0);
}

#[test]
fn store_keeps_the_declared_topology() {
    let d = duo();
    let mut st = new_store();
    match load_deployment(&st) {
        Err(Error::NotFound(_)) => {}
        other => panic!("expected NotFound before any record exists, got {:?}", other),
    }
    save_deployment(&mut st, &d);
    let d2 = load_deployment(&st).expect("the saved record must load");
    assert_eq!(d2.name, d.name);
    assert_eq!(d2.nodes.len(), d.nodes.len());
    assert_eq!(d2.links, d.links);
}

#[test]
fn load_rejects_garbage() {
    match load("not a topology record") {
        Err(Error::Corrupt(_)) => {}
        other => panic!("expected Corrupt, got {:?}", other),
    }
    match load("") {
        Err(Error::Corrupt(_)) => {}
        other => panic!("expected Corrupt, got {:?}", other),
    }
}

#[test]
fn load_rejects_trailing_content() {
    let d = duo();
    let mut text = save(&d);
    text.push('x');
    match load(text.as_str()) {
        Err(Error::Corrupt(_)) => {}
        other => panic!("expected Corrupt, got {:?}", other),
    }
}

#[test]
fn find_node_reports_missing_name() {
    let d = duo();
    match find_node(&d, "piano") {
        Err(Error::NotFound(m)) => assert_eq!(m, "piano"),
        other => panic!("expected NotFound(piano), got {:?}", other),
    }
    let n = find_node(&d, "router").expect("router is declared");
    assert_eq!(n.name, "router");
    assert_eq!(n.image, "helios");
    assert_eq!(n.radix, 3);
}

#[test]
fn port_file_roundtrip() {
    assert_eq!(format_port(9000), "09000");
    assert_eq!(parse_port("09000"), Ok(9000));
    assert_eq!(parse_port("9000\n"), Ok(9000));
    match parse_port("hello") {
        Err(Error::Invalid(_)) => {}
        other => panic!("expected Invalid, got {:?}", other),
    }
    match parse_port("70000") {
        Err(Error::Invalid(_)) => {}
        other => panic!("expected Invalid, got {:?}", other),
    }
}

#[test]
fn pid_file_roundtrip() {
    let text = format_pid(4242);
    assert_eq!(parse_pid(text.as_str()), Ok(4242));
    assert_eq!(parse_pid("123\n"), Ok(123));
    assert_eq!(parse_pid("-17"), Ok(-17));
    match parse_pid("12x") {
        Err(Error::Invalid(_)) => {}
        other => panic!("expected Invalid, got {:?}", other),
    }
}

#[test]
fn uuid_file_roundtrip() {
    let u = UuidVal { hi: 0x0123_4567_89ab_cdef, lo: 0xfedc_ba98_7654_3210 };
    let text = format_uuid(u);
    assert_eq!(text, "01234567-89ab-cdef-fedc-ba9876543210");
    assert_eq!(parse_uuid(text.as_str()), Ok(u));
    match parse_uuid("not-a-uuid") {
        Err(Error::Invalid(_)) => {}
        other => panic!("expected Invalid, got {:?}", other),
    }
    match parse_uuid("01234567-89ab-cdef-fedc-ba987654321g") {
        Err(Error::Invalid(_)) => {}
        other => panic!("expected Invalid, got {:?}", other),
    }
}

#[test]
fn started_handle_is_retrievable_and_ports_stay_distinct() {
    let mut st = new_store();
    let u1 = UuidVal { hi: 1, lo: 2 };
    let u2 = UuidVal { hi: 3, lo: 4 };
    let h1 = start(&mut st, "router", 9000, u1, 100);
    let h2 = start(&mut st, "violin", 9001, u2, 101);
    assert_eq!(h1.port, 9000);
    assert_eq!(h2.port, 9001);
    assert_ne!(h1.port, h2.port);
    assert_eq!(read_port(&st, "router"), Ok(9000));
    assert_eq!(read_uuid(&st, "router"), Ok(u1));
    assert_eq!(read_pid(&st, "router"), Ok(100));
    assert_eq!(read_port(&st, "violin"), Ok(9001));
    assert_eq!(read_uuid(&st, "violin"), Ok(u2));
    assert_eq!(read_pid(&st, "violin"), Ok(101));
}

#[test]
fn start_all_records_every_node_in_order() {
    let d = duo();
    let mut st = new_store();
    let hs = vec![
        RuntimeHandle { port: 9000, uuid: UuidVal { hi: 1, lo: 1 }, pid: 10 },
        RuntimeHandle { port: 9001, uuid: UuidVal { hi: 2, lo: 2 }, pid: 11 },
    ];
    start_all(&mut st, &d, &hs);
    assert_eq!(read_port(&st, "router"), Ok(9000));
    assert_eq!(read_port(&st, "violin"), Ok(9001));
    assert_eq!(read_pid(&st, "router"), Ok(10));
    assert_eq!(read_pid(&st, "violin"), Ok(11));
    match read_port(&st, "piano") {
        Err(Error::NotFound(_)) => {}
        other => panic!("expected NotFound for an undeclared node, got {:?}", other),
    }
}

#[test]
fn hyperstart_needs_the_declared_node_and_its_files() {
    let d = duo();
    let mut st = new_store();
    match hyperstart_plan(&st, &d, "piano") {
        Err(Error::NotFound(m)) => assert_eq!(m, "piano"),
        other => panic!("expected NotFound(piano), got {:?}", other),
    }
    match hyperstart_plan(&st, &d, "router") {
        Err(Error::NotFound(_)) => {}
        other => panic!("expected NotFound for the missing port file, got {:?}", other),
    }
    let u = UuidVal { hi: 5, lo: 6 };
    start(&mut st, "router", 9000, u, 77);
    assert_eq!(hyperstart_plan(&st, &d, "router"), Ok((9000, u)));
}

#[test]
fn read_errors_distinguish_missing_from_malformed() {
    let st = new_store();
    match read_port(&st, "router") {
        Err(Error::NotFound(_)) => {}
        other => panic!("expected NotFound, got {:?}", other),
    }
    let st = Store {
        topo: None,
        entries: vec![StoreEntry {
            name: "router".to_string(),
            port: Some("nonsense".to_string()),
            uuid: None,
            pid: None,
        }],
    };
    match read_port(&st, "router") {
        Err(Error::Invalid(_)) => {}
        other => panic!("expected Invalid, got {:?}", other),
    }
}

#[test]
fn stop_is_idempotent() {
    let mut st = new_store();
    write_pid(&mut st, "router", 4242);
    write_uuid(&mut st, "router", UuidVal { hi: 7, lo: 8 });
    let first = stop(&mut st, "router");
    assert_eq!(first.kill_pid, Some(4242));
    assert!(first.destroy_uuid.is_some());
    assert!(first.warnings.is_empty());
    let second = stop(&mut st, "router");
    assert_eq!(second.kill_pid, None);
    assert!(second.destroy_uuid.is_some());
    assert_eq!(second.warnings, vec![StopWarning::NoPidFile]);
}

#[test]
fn stop_keeps_an_unreadable_pid_file() {
    let mut st = Store {
        topo: None,
        entries: vec![StoreEntry {
            name: "router".to_string(),
            port: None,
            uuid: None,
            pid: Some("junk".to_string()),
        }],
    };
    let plan = stop(&mut st, "router");
    assert_eq!(plan.kill_pid, None);
    assert_eq!(plan.warnings, vec![StopWarning::BadPidFile, StopWarning::NoUuidFile]);
    match read_pid(&st, "router") {
        Err(Error::Invalid(_)) => {}
        other => panic!("the unreadable pid file must stay, got {:?}", other),
    }
}

#[test]
fn stop_on_empty_store_only_warns() {
    let mut st = new_store();
    let plan = stop(&mut st, "ghost");
    assert_eq!(plan.kill_pid, None);
    assert_eq!(plan.destroy_uuid, None);
    assert_eq!(plan.warnings, vec![StopWarning::NoPidFile, StopWarning::NoUuidFile]);
}

#[test]
fn stop_all_visits_every_node_in_order_despite_missing_state() {
    let d = Deployment {
        name: "trio".to_string(),
        nodes: vec![
            node("alpha", "img", 1, 1, 1, vec![]),
            node("beta", "img", 1, 2, 2, vec![]),
            node("gamma", "img", 1, 3, 3, vec![]),
        ],
        links: vec![],
    };
    let mut st = new_store();
    // alpha has no pid file at all
    write_pid(&mut st, "beta", 222);
    write_pid(&mut st, "gamma", 333);
    let (plans, _) = stop_all(&mut st, &d);
    assert_eq!(plans.len(), 3);
    assert_eq!(plans[0].kill_pid, None);
    assert!(plans[0].warnings.contains(&StopWarning::NoPidFile));
    assert_eq!(plans[1].kill_pid, Some(222));
    assert_eq!(plans[2].kill_pid, Some(333));
    match read_pid(&st, "beta") {
        Err(Error::NotFound(_)) => {}
        other => panic!("expected pid file gone, got {:?}", other),
    }
}

#[test]
fn snapshot_plan_names_the_four_commands() {
    let d = duo();
    let cmds = snapshot_plan(&d, "violin", "golden").expect("violin is declared");
    assert_eq!(cmds.len(), 4);
    assert_eq!(cmds[0].verb, "snapshot");
    assert_eq!(cmds[0].args, vec!["rpool/falcon/topo/duo/violin@base".to_string()]);
    assert_eq!(cmds[1].verb, "clone");
    assert_eq!(
        cmds[1].args,
        vec![
            "rpool/falcon/topo/duo/violin@base".to_string(),
            "rpool/falcon/img/golden".to_string()
        ]
    );
    assert_eq!(cmds[2].verb, "promote");
    assert_eq!(cmds[2].args, vec!["rpool/falcon/img/golden".to_string()]);
    assert_eq!(cmds[3].verb, "snapshot");
    assert_eq!(cmds[3].args, vec!["rpool/falcon/img/golden@base".to_string()]);
    match snapshot_plan(&d, "piano", "golden") {
        Err(Error::NotFound(m)) => assert_eq!(m, "piano"),
        other => panic!("expected NotFound(piano), got {:?}", other),
    }
}

#[test]
fn clone_failure_aborts_without_rollback() {
    let ok = || StepOutcome { success: true, stderr: String::new() };
    let outcomes = vec![
        ok(),
        StepOutcome { success: false, stderr: "cannot clone: no space".to_string() },
        ok(),
        ok(),
    ];
    let (issued, result) = run_pipeline(&outcomes);
    assert_eq!(issued, 2, "promote and the final snapshot must never run");
    match result {
        Err(Error::StorageCommand(msg)) => assert_eq!(msg, "cannot clone: no space"),
        other => panic!("expected StorageCommand, got {:?}", other),
    }
    let (issued, result) = run_pipeline(&vec![ok(), ok(), ok(), ok()]);
    assert_eq!(issued, 4);
    assert!(result.is_ok());
}

#[test]
fn quit_sentinel_closes_without_forwarding() {
    let mut restores = 0;
    let (state, action) = proxy_step(ProxyState::Active, ProxyEvent::LocalByte(QUIT_SENTINEL));
    assert_eq!(state, ProxyState::Closed);
    match action {
        ProxyAction::RestoreTerminal => restores += 1,
        ProxyAction::Forward(_) => panic!("the quit sentinel must never reach the remote"),
        other => panic!("expected RestoreTerminal, got a different action: {:?}", kind(&other)),
    }
    assert_eq!(restores, 1);
}

#[test]
fn remote_close_restores_terminal_once() {
    let mut restores = 0;
    let events = vec![
        ProxyEvent::LocalByte(b'l'),
        ProxyEvent::RemoteBinary(vec![b'o', b'k']),
        ProxyEvent::RemoteOther,
        ProxyEvent::RemoteClose,
    ];
    let mut state = ProxyState::Connecting;
    let (s, a) = proxy_step(state, ProxyEvent::SessionOpened);
    state = s;
    assert!(matches!(a, ProxyAction::EnterRaw));
    for ev in events {
        assert_eq!(state, ProxyState::Active);
        let (s, a) = proxy_step(state, ev);
        state = s;
        if matches!(a, ProxyAction::RestoreTerminal) {
            restores += 1;
        }
    }
    assert_eq!(state, ProxyState::Closed);
    assert_eq!(restores, 1);
}

#[test]
fn ordinary_bytes_are_forwarded_and_output_is_written() {
    let (state, action) = proxy_step(ProxyState::Active, ProxyEvent::LocalByte(b'a'));
    assert_eq!(state, ProxyState::Active);
    assert!(matches!(action, ProxyAction::Forward(b'a')));
    let (state, action) = proxy_step(ProxyState::Active, ProxyEvent::RemoteBinary(vec![1, 2, 3]));
    assert_eq!(state, ProxyState::Active);
    match action {
        ProxyAction::WriteOut(v) => assert_eq!(v, vec![1, 2, 3]),
        _ => panic!("expected WriteOut"),
    }
    let (state, _) = proxy_step(ProxyState::Active, ProxyEvent::RemoteEnd);
    assert_eq!(state, ProxyState::Closed);
}

#[test]
fn select_targets_requires_a_name_or_all() {
    let d = duo();
    let all = select_targets(&d, true, None).expect("--all needs no name");
    assert_eq!(all, vec!["router".to_string(), "violin".to_string()]);
    let name = "violin".to_string();
    let one = select_targets(&d, false, Some(&name)).expect("a name suffices");
    assert_eq!(one, vec!["violin".to_string()]);
    match select_targets(&d, false, None) {
        Err(Error::Usage(_)) => {}
        other => panic!("expected Usage, got {:?}", other),
    }
}

fn kind(a: &ProxyAction) -> &'static str {
    match a {
        ProxyAction::Idle => "Idle",
        ProxyAction::EnterRaw => "EnterRaw",
        ProxyAction::Forward(_) => "Forward",
        ProxyAction::WriteOut(_) => "WriteOut",
        ProxyAction::RestoreTerminal => "RestoreTerminal",
    }
}
