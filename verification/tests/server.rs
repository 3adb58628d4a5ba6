use seaki::server::{
    match_route, no_file_reply, not_found_message, prepare_upload, upload_path, ConnectionRequest,
    DownloadPlan, FileServer, FileTransferRequest, Method, PartAction, Route, UploadBody, UploadReply,
    upload_part_action,
};

fn server() -> FileServer {
    FileServer::new().unwrap()
}

fn store(s: &mut FileServer, name: &str, data: &[u8]) -> UploadReply {
    let prepared = prepare_upload(name, data);
    s.finish_upload(prepared, Ok(()))
}

#[test]
fn new_server_listens_on_8080_with_host_name() {
    let s = server();
    assert_eq!(s.port, 8080);
    assert!(!s.device_name.chars().any(|c| c.is_ascii_uppercase()));
    assert!(s.pending_connections.is_empty());
    assert!(s.pending_files.is_empty());
    let st = s.status();
    assert_eq!(st.status, "online");
    assert_eq!(st.name, s.device_name);
    assert!(st.files.is_empty());
}

#[test]
fn routes_of_the_api() {
    assert_eq!(match_route(Method::Get, "/api/status"), Some(Route::Status));
    assert_eq!(match_route(Method::Post, "/api/upload"), Some(Route::Upload));
    assert_eq!(
        match_route(Method::Get, "/api/download/abc-123"),
        Some(Route::Download("abc-123".to_string()))
    );
    assert_eq!(match_route(Method::Post, "/api/connect"), Some(Route::Connect));
    assert_eq!(match_route(Method::Post, "/api/transfer"), Some(Route::Transfer));
}

#[test]
fn routes_need_their_method() {
    assert_eq!(match_route(Method::Post, "/api/status"), None);
    assert_eq!(match_route(Method::Get, "/api/upload"), None);
    assert_eq!(match_route(Method::Other, "/api/connect"), None);
    assert_eq!(match_route(Method::Get, "/api/transfer"), None);
}

#[test]
fn unknown_paths_have_no_route() {
    assert_eq!(match_route(Method::Get, "/"), None);
    assert_eq!(match_route(Method::Get, ""), None);
    assert_eq!(match_route(Method::Get, "/api"), None);
    assert_eq!(match_route(Method::Get, "/api/"), None);
    assert_eq!(match_route(Method::Get, "/apis/status"), None);
    assert_eq!(match_route(Method::Get, "//api/status"), None);
    assert_eq!(match_route(Method::Get, "/api/download"), None);
    assert_eq!(match_route(Method::Get, "/api/download/"), None);
    assert_eq!(match_route(Method::Get, "/API/status"), None);
}

#[test]
fn trailing_segments_are_not_looked_at() {
    assert_eq!(match_route(Method::Get, "/api/status/more"), Some(Route::Status));
    assert_eq!(match_route(Method::Get, "/api/status/"), Some(Route::Status));
    assert_eq!(
        match_route(Method::Get, "/api/download/x/y"),
        Some(Route::Download("x".to_string()))
    );
    assert_eq!(match_route(Method::Get, "api/status"), Some(Route::Status));
}

#[test]
fn upload_is_recorded_with_hash_and_type() {
    let mut s = server();
    let prepared = prepare_upload("photo.png", b"hello");
    let id = prepared.file_id.clone();
    assert_eq!(id.len(), 36);
    assert_eq!(prepared.disk_path, format!("./uploads/{}", id));
    assert_eq!(prepared.info.hash, "2cf24dba5fb0a30e26e83b2ac5b9e29e1b161e5c1fa7425e73043362938b9824");
    let reply = s.finish_upload(prepared, Ok(()));
    assert!(reply.success);
    assert_eq!(reply.message, "File uploaded successfully");
    assert_eq!(reply.file_id, Some(id));
    let st = s.status();
    assert_eq!(st.files.len(), 1);
    let f = &st.files[0];
    assert_eq!(f.name, "photo.png");
    assert_eq!(f.size, 5);
    assert_eq!(f.mime_type, "image/png");
    assert_eq!(f.hash, "2cf24dba5fb0a30e26e83b2ac5b9e29e1b161e5c1fa7425e73043362938b9824");
}

#[test]
fn upload_without_extension_is_plain_text() {
    let mut s = server();
    store(&mut s, "notes", b"");
    let f = &s.status().files[0];
    assert_eq!(f.mime_type, "text/plain");
    assert_eq!(f.size, 0);
    assert_eq!(f.hash, "e3b0c44298fc1c149afbf4c8996fb92427ae41e4649b934ca495991b7852b855");
}

#[test]
fn uploaded_file_can_be_downloaded() {
    let mut s = server();
    let id = store(&mut s, "report.pdf", b"%PDF").file_id.unwrap();
    match s.plan_download(&id) {
        DownloadPlan::Serve { disk_path, content_disposition } => {
            assert_eq!(disk_path, format!("./uploads/{}", id));
            assert_eq!(content_disposition, "attachment; filename=\"report.pdf\"");
        }
        DownloadPlan::NotFound => panic!("stored file not found"),
    }
}

#[test]
fn unknown_file_is_not_found() {
    let mut s = server();
    store(&mut s, "a.txt", b"a");
    assert!(matches!(s.plan_download("nope"), DownloadPlan::NotFound));
    assert_eq!(not_found_message(), "File not found");
}

#[test]
fn uploads_are_kept_apart() {
    let mut s = server();
    let a = store(&mut s, "a.txt", b"a").file_id.unwrap();
    let b = store(&mut s, "b.txt", b"bb").file_id.unwrap();
    assert_ne!(a, b);
    assert_eq!(s.status().files.len(), 2);
    match s.plan_download(&a) {
        DownloadPlan::Serve { content_disposition, .. } => {
            assert_eq!(content_disposition, "attachment; filename=\"a.txt\"")
        }
        DownloadPlan::NotFound => panic!(),
    }
}

#[test]
fn failed_save_is_a_failed_upload() {
    let mut s = server();
    let prepared = prepare_upload("a.txt", b"a");
    let id = prepared.file_id.clone();
    let reply = s.finish_upload(prepared, Err("No space left on device".to_string()));
    assert!(!reply.success);
    assert!(reply.file_id.is_none());
    assert_eq!(reply.message, "Failed to save file: No space left on device");
    assert!(s.status().files.is_empty());
    assert!(matches!(s.plan_download(&id), DownloadPlan::NotFound));
}

#[test]
fn empty_upload_reply() {
    let r = no_file_reply();
    assert!(!r.success);
    assert!(r.file_id.is_none());
    assert_eq!(r.message, "No file received");
    assert_eq!(upload_path("x"), "./uploads/x");
}

#[test]
fn connection_request_is_recorded() {
    let mut s = server();
    let r = s.handle_connection_request(ConnectionRequest {
        device_name: "desk".to_string(),
        device_ip: "192.168.1.5".to_string(),
    });
    assert!(r.success);
    assert_eq!(r.message, "Connection request sent");
    assert_eq!(s.pending_connections.len(), 1);
    let c = &s.pending_connections[0];
    assert_eq!(c.id, r.connection_id);
    assert_eq!(c.device_name, "desk");
    assert_eq!(c.device_ip, "192.168.1.5");
}

#[test]
fn transfer_request_is_recorded() {
    let mut s = server();
    let r = s.handle_file_transfer_request(FileTransferRequest {
        file_name: "song.mp3".to_string(),
        file_size: 4096,
        sender_name: "desk".to_string(),
        sender_ip: "192.168.1.5".to_string(),
    });
    assert!(r.success);
    assert_eq!(r.message, "File transfer request sent");
    assert_eq!(s.pending_files.len(), 1);
    let f = &s.pending_files[0];
    assert_eq!(f.id, r.file_id);
    assert_eq!(f.file_name, "song.mp3");
    assert_eq!(f.file_size, 4096);
    assert_eq!(f.sender_name, "desk");
    assert_eq!(f.sender_ip, "192.168.1.5");
}

#[test]
fn first_named_part_is_the_file() {
    assert!(matches!(upload_part_action(Err("bad part".to_string())), PartAction::Skip));
    assert!(matches!(upload_part_action(Ok(None)), PartAction::Skip));
    match upload_part_action(Ok(Some("a.txt".to_string()))) {
        PartAction::Receive { file_name } => assert_eq!(file_name, "a.txt"),
        PartAction::Skip => panic!("named part skipped"),
    }
}

#[test]
fn chunks_are_gathered_until_one_fails() {
    let mut body = UploadBody::new();
    assert!(body.take_chunk(Ok(b"he")));
    assert!(body.take_chunk(Ok(b"llo")));
    assert_eq!(body.data, b"hello".to_vec());
    assert_eq!(body.received(), Ok(()));
    assert!(!body.take_chunk(Err("connection reset".to_string())));
    assert_eq!(body.data, b"hello".to_vec());
    assert_eq!(body.received(), Err("connection reset".to_string()));
}

#[test]
fn an_interrupted_upload_is_not_kept() {
    let mut s = server();
    let mut body = UploadBody::new();
    body.take_chunk(Ok(b"par"));
    body.take_chunk(Err("connection reset".to_string()));
    let prepared = prepare_upload("a.txt", &body.data);
    let reply = s.finish_upload(prepared, body.received());
    assert!(!reply.success);
    assert_eq!(reply.message, "Failed to save file: connection reset");
    assert!(s.status().files.is_empty());
}
