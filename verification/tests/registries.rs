//! Connection, terminal and tunnel bookkeeping, and the ordered
//! terminal output log.
use zync_core::connections::chain_connect_succeeds;
use zync_core::connections::chain_endpoints;
use zync_core::connections::AuthMethod;
use zync_core::connections::ConnectionConfig;
use zync_core::connections::ConnectionRecord;
use zync_core::connections::ConnectionRegistry;
use zync_core::connections::ConnectionResponse;
use zync_core::terminals::coalesce_resizes;
use zync_core::terminals::InputQueue;
use zync_core::terminals::OutputLog;
use zync_core::terminals::TerminalRegistry;
use zync_core::tunnels::internal_id;
use zync_core::tunnels::with_status;
use zync_core::tunnels::ForwardTarget;
use zync_core::tunnels::SavedTunnel;
use zync_core::tunnels::TunnelStatusChange;
use zync_core::tunnels::TunnelTables;

fn config(id: &str, host: &str, jump: Option<ConnectionConfig>) -> ConnectionConfig {
    ConnectionConfig {
        id: id.to_string(),
        name: id.to_string(),
        host: host.to_string(),
        port: 22,
        username: "u".to_string(),
        auth_method: AuthMethod::Password { password: "p".to_string() },
        jump_host: jump.map(Box::new),
    }
}

fn record(cfg: ConnectionConfig) -> ConnectionRecord {
    ConnectionRecord { config: cfg, detected_os: Some("linux".to_string()), has_sftp: true }
}

/// A jump chain `A -> B -> C` is dialed outermost first; the target
/// connects only when every hop authenticates, and disconnecting the
/// target leaves the jumps registered.
#[test]
fn jump_chain_order_and_teardown() {
    let a = config("a", "hop-a", None);
    let b = config("b", "hop-b", Some(a));
    let c = config("c", "target-c", Some(b));
    let hops = chain_endpoints(&c);
    let hosts: Vec<String> = hops.iter().map(|h| h.0.clone()).collect();
    assert_eq!(hosts, vec!["hop-a".to_string(), "hop-b".to_string(), "target-c".to_string()]);

    assert!(chain_connect_succeeds(&vec![true, true, true]));
    assert!(!chain_connect_succeeds(&vec![true, false, true]));
    assert!(chain_connect_succeeds(&Vec::new()));

    let mut reg = ConnectionRegistry::new();
    reg.insert("a", record(config("a", "hop-a", None)));
    reg.insert("b", record(config("b", "hop-b", None)));
    reg.insert("c", record(config("c", "target-c", None)));
    reg.remove("c");
    assert!(!reg.contains("c"));
    assert!(reg.contains("a"));
    assert!(reg.contains("b"));
}

#[test]
fn connection_registry_replaces_and_reads() {
    let mut reg = ConnectionRegistry::new();
    assert!(reg.get("x").is_none());
    reg.insert("x", record(config("x", "h1", None)));
    reg.insert("x", record(config("x", "h2", None)));
    let rec = reg.get("x").unwrap();
    assert_eq!(rec.config.host, "h2");
    assert_eq!(rec.detected_os.as_deref(), Some("linux"));
    reg.remove("missing");
    assert!(reg.contains("x"));
}

#[test]
fn connection_response_carries_the_outcome() {
    let r = ConnectionResponse {
        success: true,
        message: "Connected".to_string(),
        term_id: Some("c1".to_string()),
        detected_os: Some("ubuntu".to_string()),
    };
    assert!(r.success);
    assert_eq!(r.term_id.as_deref(), Some("c1"));
}

/// Creating a terminal that already exists is a no-op.
#[test]
fn terminal_creation_is_idempotent() {
    let mut reg = TerminalRegistry::new();
    assert!(reg.create("t1", "c1"));
    assert!(!reg.create("t1", "c2"));
    assert_eq!(reg.owner_of("t1").map(|s| s.clone()), Some("c1".to_string()));
}

#[test]
fn disconnect_closes_exactly_that_connections_terminals() {
    let mut reg = TerminalRegistry::new();
    assert!(reg.create("t1", "c1"));
    assert!(reg.create("t2", "c2"));
    assert!(reg.create("t3", "c1"));
    assert!(reg.create("t4", "local"));
    reg.close_by_connection("c1");
    assert!(reg.owner_of("t1").is_none());
    assert!(reg.owner_of("t3").is_none());
    assert_eq!(reg.owner_of("t2").map(|s| s.clone()), Some("c2".to_string()));
    assert_eq!(reg.owner_of("t4").map(|s| s.clone()), Some("local".to_string()));
    reg.close("t2");
    assert!(reg.owner_of("t2").is_none());
}

#[test]
fn resizes_coalesce_to_the_latest() {
    assert_eq!(coalesce_resizes(&Vec::new()), None);
    assert_eq!(coalesce_resizes(&vec![(80, 24), (100, 30), (120, 40)]), Some((120, 40)));
}

/// The concatenation of emitted output chunks is exactly the byte
/// stream the terminal produced, in order, whatever the read sizes
/// were.
#[test]
fn output_log_preserves_stream_order() {
    let produced: Vec<u8> = (0u16..1000).map(|i| (i % 251) as u8).collect();
    let mut log = OutputLog::new();
    for chunk in produced.chunks(97) {
        log.emit(chunk.to_vec());
    }
    let reassembled: Vec<u8> = log.chunks.iter().flat_map(|c| c.iter().copied()).collect();
    assert_eq!(reassembled, produced);
    // Multi-byte characters split across chunks survive, because the
    // log never decodes.
    let utf8 = "héllo wörld".as_bytes();
    let mut log2 = OutputLog::new();
    for chunk in utf8.chunks(2) {
        log2.emit(chunk.to_vec());
    }
    let bytes: Vec<u8> = log2.chunks.iter().flat_map(|c| c.iter().copied()).collect();
    assert_eq!(bytes, utf8);
}

fn saved(kind: &str, lp: u16, rp: u16) -> SavedTunnel {
    SavedTunnel {
        id: "tun1".to_string(),
        connection_id: "c1".to_string(),
        tunnel_type: kind.to_string(),
        local_port: lp,
        remote_port: rp,
        remote_host: "db".to_string(),
        bind_address: None,
        status: None,
    }
}

#[test]
fn internal_ids_follow_the_port_order() {
    assert_eq!(internal_id(&saved("local", 15432, 5432)), "local:15432:5432");
    assert_eq!(internal_id(&saved("remote", 8080, 9090)), "remote:9090:8080");
}

/// A started local tunnel lists as active; stopping it flips the
/// listing to stopped.
#[test]
fn tunnel_status_follows_the_tables() {
    let t = saved("local", 15432, 5432);
    let mut tables = TunnelTables::new();
    let listed = with_status(&t, &tables);
    assert_eq!(listed.status.as_deref(), Some("stopped"));

    tables.add_local("local:15432:5432");
    let listed = with_status(&t, &tables);
    assert_eq!(listed.status.as_deref(), Some("active"));
    assert_eq!(listed.local_port, 15432);
    assert_eq!(listed.remote_host, "db");

    tables.remove_local("local:15432:5432");
    let listed = with_status(&t, &tables);
    assert_eq!(listed.status.as_deref(), Some("stopped"));
}

#[test]
fn remote_forwards_key_by_port() {
    let mut tables = TunnelTables::new();
    tables.add_remote(
        9090,
        ForwardTarget { host: "127.0.0.1".to_string(), port: 3000, bind_addr: "0.0.0.0".to_string() },
    );
    let target = tables.remote_lookup(9090).unwrap();
    assert_eq!(target.host, "127.0.0.1");
    assert_eq!(target.port, 3000);
    assert!(tables.remote_lookup(9091).is_none());

    let rt = saved("remote", 8080, 9090);
    assert_eq!(with_status(&rt, &tables).status.as_deref(), Some("active"));
    tables.remove_remote(9090);
    assert!(tables.remote_lookup(9090).is_none());
    assert_eq!(with_status(&rt, &tables).status.as_deref(), Some("stopped"));
}

#[test]
fn status_change_event_payload() {
    let ev = TunnelStatusChange {
        id: "tun1".to_string(),
        status: "stopped".to_string(),
        error: None,
    };
    assert_eq!(ev.status, "stopped");
    assert!(ev.error.is_none());
}

/// Bytes written to one terminal leave the queue in submission order.
#[test]
fn input_queue_is_first_in_first_out() {
    let mut q = InputQueue::new();
    q.push(b"ec".to_vec());
    q.push(b"ho h".to_vec());
    q.push(b"i\n".to_vec());
    let mut sent: Vec<u8> = Vec::new();
    while let Some(chunk) = q.pop() {
        sent.extend_from_slice(&chunk);
    }
    assert_eq!(sent, b"echo hi\n".to_vec());
    assert!(q.pop().is_none());
}
