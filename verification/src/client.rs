//! The sending side: the requests a device makes to a peer's server to
//! send it a file, ask for its status or fetch a file from it, and what each
//! answer leads to next. The caller performs each request and reports how
//! it went.

use vstd::prelude::*;
use crate::network::status_is_success;
use crate::platform::{has_no_ascii_uppercase, host_name};
use crate::server::{ConnectionRequest, FileTransferRequest};
use crate::text::concat_str;

verus! {

/// How an HTTP exchange ended when the peer answered: the status code and
/// its text as it is shown to the user (such as "404 Not Found").
#[derive(Clone, Debug)]
pub struct HttpStatus {
    pub code: u16,
    pub text: String,
}

/// The address of endpoint `endpoint` of the server at `device_ip`.
pub open spec fn spec_api_url(device_ip: Seq<char>, endpoint: Seq<char>) -> Seq<char> {
    "http://"@ + device_ip + ":8080/api/"@ + endpoint
}

/// The address of an endpoint of a peer's server.
pub fn api_url(device_ip: &str, endpoint: &str) -> (r: String)
    ensures
        r@ == spec_api_url(device_ip@, endpoint@),
{
    let mut r = "http://".to_owned();
    r.append(device_ip);
    r.append(":8080/api/");
    r.append(endpoint);
    r
}

/// The next thing to do while sending a file.
#[derive(Debug)]
pub enum SendAction {
    /// Read the file's bytes.
    ReadFile { file_name: String },
    /// Ask the peer to accept a connection.
    PostConnect { url: String, connection: ConnectionRequest },
    /// Announce the file to the peer.
    PostTransfer { url: String, transfer: FileTransferRequest },
    /// Upload the bytes as a multipart form part named `file`.
    Upload { file_name: String, url: String },
    /// Stop with this result.
    Finish(Result<String, String>),
}

/// The view of a finished result.
pub open spec fn result_view(r: Result<String, String>) -> Result<Seq<char>, Seq<char>> {
    match r {
        Ok(s) => Ok(s@),
        Err(e) => Err(e@),
    }
}

/// The start of sending: the file must exist and have a name.
pub fn send_start(exists: bool, file_name: Option<String>) -> (r: SendAction)
    ensures
        !exists ==> (r matches SendAction::Finish(res) && result_view(res) == Err::<Seq<char>, Seq<char>>(
            "File does not exist"@,
        )),
        exists && file_name is None ==> (r matches SendAction::Finish(res) && result_view(res)
            == Err::<Seq<char>, Seq<char>>("Invalid file name"@)),
        exists && file_name is Some ==> (r matches SendAction::ReadFile { file_name: n } && n@
            == file_name.unwrap()@),
{
    if !exists {
        return SendAction::Finish(Err("File does not exist".to_owned()));
    }
    match file_name {
        Some(n) => SendAction::ReadFile { file_name: n },
        None => SendAction::Finish(Err("Invalid file name".to_owned())),
    }
}

/// After reading the file: ask the peer to connect, introducing this host
/// by its name and `local_ip`.
pub fn send_after_read(device_ip: &str, read: Result<u64, String>, local_ip: &str) -> (r:
    SendAction)
    ensures
        match read {
            Err(e) => r matches SendAction::Finish(res) && result_view(res) == Err::<
                Seq<char>,
                Seq<char>,
            >("Failed to read file: "@ + e@),
            Ok(_) => r matches SendAction::PostConnect { url, connection: body } && url@ == spec_api_url(
                device_ip@,
                "connect"@,
            ) && body.device_ip@ == local_ip@ && has_no_ascii_uppercase(body.device_name@),
        },
{
    send_after_read_as(host_name(), device_ip, read, local_ip)
}

/// After reading the file: ask the peer to connect, introducing this host
/// as `sender` at `local_ip`.
pub fn send_after_read_as(sender: String, device_ip: &str, read: Result<u64, String>, local_ip: &str) -> (r:
    SendAction)
    ensures
        match read {
            Err(e) => r matches SendAction::Finish(res) && result_view(res) == Err::<
                Seq<char>,
                Seq<char>,
            >("Failed to read file: "@ + e@),
            Ok(_) => r matches SendAction::PostConnect { url, connection: body } && url@ == spec_api_url(
                device_ip@,
                "connect"@,
            ) && body.device_ip@ == local_ip@ && body.device_name@ == sender@,
        },
{
    match read {
        Err(e) => SendAction::Finish(Err(concat_str("Failed to read file: ", e.as_str()))),
        Ok(_) => SendAction::PostConnect {
            url: api_url(device_ip, "connect"),
            connection: ConnectionRequest { device_name: sender, device_ip: local_ip.to_owned() },
        },
    }
}

/// After the connection request: when the peer accepted it, announce the
/// file; otherwise stop with the reason.
pub fn send_after_connect(
    device_ip: &str,
    file_name: &str,
    file_size: u64,
    reply: Result<HttpStatus, String>,
    local_ip: &str,
) -> (r: SendAction)
    ensures
        match reply {
            Err(e) => r matches SendAction::Finish(res) && result_view(res) == Err::<
                Seq<char>,
                Seq<char>,
            >("Failed to send connection request: "@ + e@),
            Ok(st) => if 200 <= st.code <= 299 {
                r matches SendAction::PostTransfer { url, transfer: body } && url@ == spec_api_url(
                    device_ip@,
                    "transfer"@,
                ) && body.file_name@ == file_name@ && body.file_size == file_size
                    && body.sender_ip@ == local_ip@ && has_no_ascii_uppercase(body.sender_name@)
            } else {
                r matches SendAction::Finish(res) && result_view(res) == Err::<
                    Seq<char>,
                    Seq<char>,
                >("Connection request failed: "@ + st.text@)
            },
        },
{
    match reply {
        Err(e) => SendAction::Finish(
            Err(concat_str("Failed to send connection request: ", e.as_str())),
        ),
        Ok(st) => {
            if status_is_success(st.code) {
                send_after_connect_as(host_name(), device_ip, file_name, file_size, Ok(st), local_ip)
            } else {
                SendAction::Finish(Err(concat_str("Connection request failed: ", st.text.as_str())))
            }
        },
    }
}

/// After the connection request: when the peer accepted it, announce the
/// file as sent by `sender` at `local_ip`; otherwise stop with the reason.
pub fn send_after_connect_as(
    sender: String,
    device_ip: &str,
    file_name: &str,
    file_size: u64,
    reply: Result<HttpStatus, String>,
    local_ip: &str,
) -> (r: SendAction)
    ensures
        match reply {
            Err(e) => r matches SendAction::Finish(res) && result_view(res) == Err::<
                Seq<char>,
                Seq<char>,
            >("Failed to send connection request: "@ + e@),
            Ok(st) => if 200 <= st.code <= 299 {
                r matches SendAction::PostTransfer { url, transfer: body } && url@ == spec_api_url(
                    device_ip@,
                    "transfer"@,
                ) && body.file_name@ == file_name@ && body.file_size == file_size
                    && body.sender_ip@ == local_ip@ && body.sender_name@ == sender@
            } else {
                r matches SendAction::Finish(res) && result_view(res) == Err::<
                    Seq<char>,
                    Seq<char>,
                >("Connection request failed: "@ + st.text@)
            },
        },
{
    match reply {
        Err(e) => SendAction::Finish(
            Err(concat_str("Failed to send connection request: ", e.as_str())),
        ),
        Ok(st) => {
            if status_is_success(st.code) {
                SendAction::PostTransfer {
                    url: api_url(device_ip, "transfer"),
                    transfer: FileTransferRequest {
                        file_name: file_name.to_owned(),
                        file_size,
                        sender_name: sender,
                        sender_ip: local_ip.to_owned(),
                    },
                }
            } else {
                SendAction::Finish(Err(concat_str("Connection request failed: ", st.text.as_str())))
            }
        },
    }
}

/// After the transfer announcement: whatever the peer answered, upload the
/// bytes; stop only when the request itself failed.
pub fn send_after_transfer(device_ip: &str, file_name: &str, reply: Result<HttpStatus, String>) -> (r:
    SendAction)
    ensures
        match reply {
            Err(e) => r matches SendAction::Finish(res) && result_view(res) == Err::<
                Seq<char>,
                Seq<char>,
            >("Failed to send file transfer request: "@ + e@),
            Ok(_) => r matches SendAction::Upload { url, file_name: n } && url@ == spec_api_url(
                device_ip@,
                "upload"@,
            ) && n@ == file_name@,
        },
{
    match reply {
        Err(e) => SendAction::Finish(
            Err(concat_str("Failed to send file transfer request: ", e.as_str())),
        ),
        Ok(_) => SendAction::Upload {
            file_name: file_name.to_owned(),
            url: api_url(device_ip, "upload"),
        },
    }
}

/// After the upload: the result of sending.
pub fn send_after_upload(reply: Result<HttpStatus, String>) -> (r: Result<String, String>)
    ensures
        match reply {
            Err(e) => result_view(r) == Err::<Seq<char>, Seq<char>>("Failed to send file: "@ + e@),
            Ok(st) => if 200 <= st.code <= 299 {
                result_view(r) == Ok::<Seq<char>, Seq<char>>("File sent successfully"@)
            } else {
                result_view(r) == Err::<Seq<char>, Seq<char>>("Server returned error: "@ + st.text@)
            },
        },
{
    match reply {
        Err(e) => Err(concat_str("Failed to send file: ", e.as_str())),
        Ok(st) => {
            if status_is_success(st.code) {
                Ok("File sent successfully".to_owned())
            } else {
                Err(concat_str("Server returned error: ", st.text.as_str()))
            }
        },
    }
}

/// The address from which the information on file `file_id` is asked of
/// the peer at `device_ip`: its status report, which lists every file, so the
/// identifier does not enter the address.
pub open spec fn spec_file_info_url(device_ip: Seq<char>, file_id: Seq<char>) -> Seq<char> {
    spec_api_url(device_ip, "status"@)
}

/// The address from which file information is asked of a peer.
pub fn file_info_url(device_ip: &str, file_id: &str) -> (r: String)
    ensures
        r@ == spec_file_info_url(device_ip@, file_id@),
{
    api_url(device_ip, "status")
}

/// Asking a peer about two different files sends the same request, and
/// (as `file_info_after_reply` takes no identifier) the same reply leads to
/// the same result.
pub proof fn law_file_info_ignores_file_id(device_ip: Seq<char>, a: Seq<char>, b: Seq<char>)
    ensures
        spec_file_info_url(device_ip, a) == spec_file_info_url(device_ip, b),
{
}

/// After asking a peer for its status: read the JSON body when it answered
/// with success (`Ok`), else the error to report.
pub fn file_info_after_reply(reply: Result<HttpStatus, String>) -> (r: Result<(), String>)
    ensures
        match reply {
            Err(e) => r matches Err(m) && m@ == "Failed to get file info: "@ + e@,
            Ok(st) => if 200 <= st.code <= 299 {
                r is Ok
            } else {
                r matches Err(m) && m@ == "Server returned error: "@ + st.text@
            },
        },
{
    match reply {
        Err(e) => Err(concat_str("Failed to get file info: ", e.as_str())),
        Ok(st) => {
            if status_is_success(st.code) {
                Ok(())
            } else {
                Err(concat_str("Server returned error: ", st.text.as_str()))
            }
        },
    }
}

/// The error reported when a status body is not JSON.
pub fn file_info_parse_error(e: &str) -> (r: String)
    ensures
        r@ == "Failed to parse response: "@ + e@,
{
    concat_str("Failed to parse response: ", e)
}

/// The address from which file `file_id` is fetched from the peer at
/// `device_ip`.
pub fn download_url(device_ip: &str, file_id: &str) -> (r: String)
    ensures
        r@ == spec_api_url(device_ip@, "download/"@ + file_id@),
{
    let mut r = api_url(device_ip, "download/");
    r.append(file_id);
    assert(r@ =~= spec_api_url(device_ip@, "download/"@ + file_id@));
    r
}

/// The next thing to do while fetching a file.
#[derive(Debug)]
pub enum DownloadAction {
    /// Read the reply's body.
    ReadBody,
    /// Write the body to `path`.
    Write { path: String },
    /// Stop with this result.
    Finish(Result<String, String>),
}

/// After asking for the file: read the body when the peer answered with
/// success, else stop with the reason.
pub fn download_after_reply(reply: Result<HttpStatus, String>) -> (r: DownloadAction)
    ensures
        match reply {
            Err(e) => r matches DownloadAction::Finish(res) && result_view(res) == Err::<
                Seq<char>,
                Seq<char>,
            >("Failed to download file: "@ + e@),
            Ok(st) => if 200 <= st.code <= 299 {
                r is ReadBody
            } else {
                r matches DownloadAction::Finish(res) && result_view(res) == Err::<
                    Seq<char>,
                    Seq<char>,
                >("Server returned error: "@ + st.text@)
            },
        },
{
    match reply {
        Err(e) => DownloadAction::Finish(Err(concat_str("Failed to download file: ", e.as_str()))),
        Ok(st) => {
            if status_is_success(st.code) {
                DownloadAction::ReadBody
            } else {
                DownloadAction::Finish(Err(concat_str("Server returned error: ", st.text.as_str())))
            }
        },
    }
}

/// After reading the body: write it to `save_path`, or stop with the
/// reason it could not be read.
pub fn download_after_body(save_path: &str, body: Result<(), String>) -> (r: DownloadAction)
    ensures
        match body {
            Err(e) => r matches DownloadAction::Finish(res) && result_view(res) == Err::<
                Seq<char>,
                Seq<char>,
            >("Failed to read response: "@ + e@),
            Ok(_) => r matches DownloadAction::Write { path } && path@ == save_path@,
        },
{
    match body {
        Err(e) => DownloadAction::Finish(Err(concat_str("Failed to read response: ", e.as_str()))),
        Ok(_) => DownloadAction::Write { path: save_path.to_owned() },
    }
}

/// After writing the file: the result of the download.
pub fn download_after_write(written: Result<(), String>) -> (r: Result<String, String>)
    ensures
        match written {
            Err(e) => result_view(r) == Err::<Seq<char>, Seq<char>>("Failed to save file: "@ + e@),
            Ok(_) => result_view(r) == Ok::<Seq<char>, Seq<char>>(
                "File downloaded successfully"@,
            ),
        },
{
    match written {
        Err(e) => Err(concat_str("Failed to save file: ", e.as_str())),
        Ok(_) => Ok("File downloaded successfully".to_owned()),
    }
}

} // verus!
