use seaki::client::{
    api_url, download_after_body, download_after_reply, download_after_write, download_url,
    file_info_after_reply, file_info_parse_error, file_info_url, send_after_connect, send_after_read,
    send_after_transfer, send_after_upload, send_start, DownloadAction, HttpStatus, SendAction,
};

fn status(code: u16, text: &str) -> Result<HttpStatus, String> {
    Ok(HttpStatus { code, text: text.to_string() })
}

fn finish_err(a: SendAction) -> String {
    match a {
        SendAction::Finish(Err(e)) => e,
        other => panic!("{:?}", other),
    }
}

#[test]
fn urls_of_a_peer() {
    assert_eq!(api_url("10.0.0.2", "connect"), "http://10.0.0.2:8080/api/connect");
    assert_eq!(download_url("10.0.0.2", "f1"), "http://10.0.0.2:8080/api/download/f1");
}

#[test]
fn file_info_asks_for_the_status_whatever_the_file() {
    assert_eq!(file_info_url("10.0.0.2", "f1"), "http://10.0.0.2:8080/api/status");
    assert_eq!(file_info_url("10.0.0.2", "f1"), file_info_url("10.0.0.2", "other"));
}

#[test]
fn missing_file_is_refused() {
    assert_eq!(finish_err(send_start(false, Some("a".to_string()))), "File does not exist");
    assert_eq!(finish_err(send_start(true, None)), "Invalid file name");
    match send_start(true, Some("a.txt".to_string())) {
        SendAction::ReadFile { file_name } => assert_eq!(file_name, "a.txt"),
        other => panic!("{:?}", other),
    }
}

#[test]
fn read_failure_and_connect_request() {
    assert_eq!(
        finish_err(send_after_read("10.0.0.2", Err("denied".to_string()), "10.0.0.1")),
        "Failed to read file: denied"
    );
    match send_after_read("10.0.0.2", Ok(12), "10.0.0.1") {
        SendAction::PostConnect { url, connection: body } => {
            assert_eq!(url, "http://10.0.0.2:8080/api/connect");
            assert_eq!(body.device_ip, "10.0.0.1");
            assert!(!body.device_name.chars().any(|c| c.is_ascii_uppercase()));
        }
        other => panic!("{:?}", other),
    }
}

#[test]
fn connect_reply_leads_to_transfer_announcement() {
    match send_after_connect("10.0.0.2", "a.txt", 12, status(200, "200 OK"), "10.0.0.1") {
        SendAction::PostTransfer { url, transfer: body } => {
            assert_eq!(url, "http://10.0.0.2:8080/api/transfer");
            assert_eq!(body.file_name, "a.txt");
            assert_eq!(body.file_size, 12);
            assert_eq!(body.sender_ip, "10.0.0.1");
        }
        other => panic!("{:?}", other),
    }
    assert_eq!(
        finish_err(send_after_connect("10.0.0.2", "a.txt", 12, status(403, "403 Forbidden"), "x")),
        "Connection request failed: 403 Forbidden"
    );
    assert_eq!(
        finish_err(send_after_connect("10.0.0.2", "a.txt", 12, Err("refused".to_string()), "x")),
        "Failed to send connection request: refused"
    );
}

#[test]
fn transfer_reply_leads_to_upload_whatever_its_status() {
    for st in [status(200, "200 OK"), status(500, "500 Internal Server Error")] {
        match send_after_transfer("10.0.0.2", "a.txt", st) {
            SendAction::Upload { url, file_name } => {
                assert_eq!(url, "http://10.0.0.2:8080/api/upload");
                assert_eq!(file_name, "a.txt");
            }
            other => panic!("{:?}", other),
        }
    }
    assert_eq!(
        finish_err(send_after_transfer("10.0.0.2", "a.txt", Err("timeout".to_string()))),
        "Failed to send file transfer request: timeout"
    );
}

#[test]
fn upload_outcome() {
    assert_eq!(send_after_upload(status(201, "201 Created")), Ok("File sent successfully".to_string()));
    assert_eq!(
        send_after_upload(status(413, "413 Payload Too Large")),
        Err("Server returned error: 413 Payload Too Large".to_string())
    );
    assert_eq!(send_after_upload(Err("reset".to_string())), Err("Failed to send file: reset".to_string()));
}

#[test]
fn file_info_outcome() {
    assert_eq!(file_info_after_reply(status(200, "200 OK")), Ok(()));
    assert_eq!(
        file_info_after_reply(status(404, "404 Not Found")),
        Err("Server returned error: 404 Not Found".to_string())
    );
    assert_eq!(
        file_info_after_reply(Err("dns".to_string())),
        Err("Failed to get file info: dns".to_string())
    );
    assert_eq!(file_info_parse_error("eof"), "Failed to parse response: eof");
}

#[test]
fn download_steps() {
    assert!(matches!(download_after_reply(status(200, "200 OK")), DownloadAction::ReadBody));
    match download_after_reply(status(404, "404 Not Found")) {
        DownloadAction::Finish(r) => assert_eq!(r, Err("Server returned error: 404 Not Found".to_string())),
        other => panic!("{:?}", other),
    }
    match download_after_reply(Err("refused".to_string())) {
        DownloadAction::Finish(r) => assert_eq!(r, Err("Failed to download file: refused".to_string())),
        other => panic!("{:?}", other),
    }
    match download_after_body("/tmp/out.bin", Ok(())) {
        DownloadAction::Write { path } => assert_eq!(path, "/tmp/out.bin"),
        other => panic!("{:?}", other),
    }
    match download_after_body("/tmp/out.bin", Err("cut".to_string())) {
        DownloadAction::Finish(r) => assert_eq!(r, Err("Failed to read response: cut".to_string())),
        other => panic!("{:?}", other),
    }
    assert_eq!(download_after_write(Ok(())), Ok("File downloaded successfully".to_string()));
    assert_eq!(download_after_write(Err("full".to_string())), Err("Failed to save file: full".to_string()));
}
