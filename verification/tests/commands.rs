use seaki::commands::AppState;
use seaki::network::Device;
use seaki::platform::Timestamp;
use seaki::server::{IncomingConnection, IncomingFile};

fn conn(id: &str, name: &str, ip: &str) -> IncomingConnection {
    IncomingConnection {
        id: id.to_string(),
        device_name: name.to_string(),
        device_ip: ip.to_string(),
        timestamp: Timestamp { secs: 1_700_000_000, nanos: 0 },
    }
}

fn file(id: &str, sender_ip: &str) -> IncomingFile {
    IncomingFile {
        id: id.to_string(),
        file_name: "a.txt".to_string(),
        file_size: 3,
        sender_name: "desk".to_string(),
        sender_ip: sender_ip.to_string(),
        timestamp: Timestamp { secs: 1_700_000_000, nanos: 0 },
    }
}

#[test]
fn server_starts_once() {
    let mut st = AppState::new();
    let (srv, msg) = st.start_server();
    assert!(srv.is_some());
    assert_eq!(srv.unwrap().port, 8080);
    assert_eq!(msg, Ok("Server started successfully".to_string()));
    let (srv, msg) = st.start_server();
    assert!(srv.is_none());
    assert_eq!(msg, Ok("Server already running".to_string()));
    assert_eq!(st.stop_server(), Ok("Server stopped".to_string()));
    assert!(!st.server_running);
    assert!(st.start_server().0.is_some());
}

#[test]
fn approving_a_connection_adds_its_device() {
    let mut st = AppState::new();
    st.pending_connections.push(conn("c1", "desk", "192.168.1.5"));
    st.pending_connections.push(conn("c2", "phone", "192.168.1.6"));
    assert_eq!(st.approve_connection("c2", true), Ok("Connection approved".to_string()));
    assert_eq!(st.pending_connections.len(), 1);
    assert_eq!(st.pending_connections[0].id, "c1");
    let ds = st.devices();
    assert_eq!(ds.len(), 1);
    assert_eq!(ds[0].name, "phone");
    assert_eq!(ds[0].ip, "192.168.1.6");
    assert_eq!(ds[0].port, 8080);
}

#[test]
fn rejecting_a_connection_adds_nothing() {
    let mut st = AppState::new();
    st.pending_connections.push(conn("c1", "desk", "192.168.1.5"));
    assert_eq!(st.approve_connection("c1", false), Ok("Connection rejected".to_string()));
    assert!(st.pending_connections.is_empty());
    assert!(st.devices.is_empty());
}

#[test]
fn a_connection_is_answered_once() {
    let mut st = AppState::new();
    st.pending_connections.push(conn("c1", "desk", "192.168.1.5"));
    assert!(st.approve_connection("c1", true).is_ok());
    assert_eq!(st.approve_connection("c1", true), Err("Connection not found".to_string()));
    assert_eq!(st.devices.len(), 1);
}

#[test]
fn unknown_connection_is_not_found() {
    let mut st = AppState::new();
    st.pending_connections.push(conn("c1", "desk", "192.168.1.5"));
    assert_eq!(st.approve_connection("zz", true), Err("Connection not found".to_string()));
    assert_eq!(st.pending_connections.len(), 1);
}

#[test]
fn approving_a_transfer_starts_a_download() {
    let mut st = AppState::new();
    st.pending_files.push(file("f1", "192.168.1.5"));
    let (r, job) = st.approve_file_transfer("f1", true, Some("/tmp/a.txt".to_string()));
    assert_eq!(r, Ok("File transfer approved".to_string()));
    let job = job.unwrap();
    assert_eq!(job.sender_ip, "192.168.1.5");
    assert_eq!(job.file_id, "f1");
    assert_eq!(job.save_path, "/tmp/a.txt");
    assert!(st.pending_files.is_empty());
}

#[test]
fn transfer_without_save_path_is_refused_and_dropped() {
    let mut st = AppState::new();
    st.pending_files.push(file("f1", "192.168.1.5"));
    let (r, job) = st.approve_file_transfer("f1", true, None);
    assert_eq!(r, Err("Save path required for file approval".to_string()));
    assert!(job.is_none());
    assert!(st.pending_files.is_empty());
}

#[test]
fn rejected_and_unknown_transfers() {
    let mut st = AppState::new();
    st.pending_files.push(file("f1", "192.168.1.5"));
    assert_eq!(st.approve_file_transfer("f2", true, None).0, Err("File not found".to_string()));
    assert_eq!(st.pending_files.len(), 1);
    let (r, job) = st.approve_file_transfer("f1", false, Some("/tmp/x".to_string()));
    assert_eq!(r, Ok("File transfer rejected".to_string()));
    assert!(job.is_none());
    assert!(st.pending_files.is_empty());
}

#[test]
fn discovery_replaces_known_devices() {
    let mut st = AppState::new();
    let a = Device::new("a".to_string(), "10.0.0.1".to_string(), 8080);
    let b = Device::new("b".to_string(), "10.0.0.2".to_string(), 5353);
    let found = st.record_discovery(vec![a.clone()], vec![b.clone()]);
    assert_eq!(found.len(), 2);
    assert_eq!(found[0].name, "a");
    assert_eq!(found[1].name, "b");
    assert_eq!(st.devices().len(), 2);
    let found = st.record_discovery(vec![], vec![]);
    assert!(found.is_empty());
    assert!(st.devices().is_empty());
}

#[test]
fn pending_lists_are_reported() {
    let mut st = AppState::new();
    st.pending_connections.push(conn("c1", "desk", "1.2.3.4"));
    st.pending_files.push(file("f1", "1.2.3.4"));
    assert_eq!(st.pending_connections().len(), 1);
    assert_eq!(st.pending_connections()[0].id, "c1");
    assert_eq!(st.pending_files()[0].id, "f1");
}
