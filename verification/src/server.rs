//! The file server: which requests it serves, what it answers, and how it
//! records uploads, connection requests and transfer requests.

use vstd::prelude::*;
use crate::ip::{range_pieces, split_range};
use crate::platform::{
    current_time, guess_mime_type, guessed_mime_type, has_no_ascii_uppercase, hex_encode, host_name,
    is_v4_uuid_text,
    new_uuid_text, sha256, sha256_digest, Timestamp,
};
use crate::store::{FileInfo, FileInfoView, FileStore};
use crate::text::{
    chars_of, concat_str, hex_lower, lemma_hex_lower_injective, lemma_split_append_free,
    lemma_split_free, lemma_split_push_sep, split,
};

verus! {

/// The server's status report.
#[derive(Clone, Debug)]
pub struct ServerStatus {
    pub name: String,
    pub status: String,
    pub files: Vec<FileInfo>,
}

/// A peer asking to connect.
#[derive(Clone, Debug)]
pub struct ConnectionRequest {
    pub device_name: String,
    pub device_ip: String,
}

/// A peer announcing a file it wants to send.
#[derive(Clone, Debug)]
pub struct FileTransferRequest {
    pub file_name: String,
    pub file_size: u64,
    pub sender_name: String,
    pub sender_ip: String,
}

/// A connection request waiting for the user's decision.
#[derive(Clone, Debug)]
pub struct IncomingConnection {
    pub id: String,
    pub device_name: String,
    pub device_ip: String,
    pub timestamp: Timestamp,
}

impl IncomingConnection {
    /// A copy of this request.
    pub fn duplicate(&self) -> (r: IncomingConnection)
        ensures
            r == *self,
    {
        IncomingConnection {
            id: self.id.clone(),
            device_name: self.device_name.clone(),
            device_ip: self.device_ip.clone(),
            timestamp: self.timestamp,
        }
    }
}

/// A file transfer waiting for the user's decision.
#[derive(Clone, Debug)]
pub struct IncomingFile {
    pub id: String,
    pub file_name: String,
    pub file_size: u64,
    pub sender_name: String,
    pub sender_ip: String,
    pub timestamp: Timestamp,
}

impl IncomingFile {
    /// A copy of this transfer.
    pub fn duplicate(&self) -> (r: IncomingFile)
        ensures
            r == *self,
    {
        IncomingFile {
            id: self.id.clone(),
            file_name: self.file_name.clone(),
            file_size: self.file_size,
            sender_name: self.sender_name.clone(),
            sender_ip: self.sender_ip.clone(),
            timestamp: self.timestamp,
        }
    }
}

/// The port the file server listens on.
pub const SERVER_PORT: u16 = 8080;

/// The file server's state.
pub struct FileServer {
    pub port: u16,
    pub device_name: String,
    pub files: FileStore,
    pub pending_connections: Vec<IncomingConnection>,
    pub pending_files: Vec<IncomingFile>,
}

/// The request methods the server tells apart.
#[derive(Clone, Copy, Debug, PartialEq, Eq, Structural)]
pub enum Method {
    Get,
    Post,
    Other,
}

/// The requests the server serves.
#[derive(Clone, Debug, PartialEq, Eq)]
pub enum Route {
    Status,
    Upload,
    Download(String),
    Connect,
    Transfer,
}

/// The value of a route.
pub enum RouteView {
    Status,
    Upload,
    Download(Seq<char>),
    Connect,
    Transfer,
}

impl View for Route {
    type V = RouteView;

    open spec fn view(&self) -> RouteView {
        match self {
            Route::Status => RouteView::Status,
            Route::Upload => RouteView::Upload,
            Route::Download(id) => RouteView::Download(id@),
            Route::Connect => RouteView::Connect,
            Route::Transfer => RouteView::Transfer,
        }
    }
}

/// The path without its leading slash.
pub open spec fn path_rest(p: Seq<char>) -> Seq<char> {
    if p.len() > 0 && p[0] == '/' {
        p.skip(1)
    } else {
        p
    }
}

/// The `k`-th segment of a path (empty past the last one).
pub open spec fn path_segment(p: Seq<char>, k: int) -> Seq<char> {
    let ps = split(path_rest(p), '/');
    if 0 <= k < ps.len() {
        ps[k]
    } else {
        Seq::<char>::empty()
    }
}

/// The route of a request: `GET /api/status`, `POST /api/upload`,
/// `GET /api/download/<id>` (a non-empty id), `POST /api/connect` and
/// `POST /api/transfer`. Segments after those are not looked at.
pub open spec fn spec_route(m: Method, p: Seq<char>) -> Option<RouteView> {
    if path_segment(p, 0) != "api"@ {
        None
    } else {
        let s = path_segment(p, 1);
        if s == "status"@ && m == Method::Get {
            Some(RouteView::Status)
        } else if s == "upload"@ && m == Method::Post {
            Some(RouteView::Upload)
        } else if s == "download"@ && path_segment(p, 2).len() > 0 && m == Method::Get {
            Some(RouteView::Download(path_segment(p, 2)))
        } else if s == "connect"@ && m == Method::Post {
            Some(RouteView::Connect)
        } else if s == "transfer"@ && m == Method::Post {
            Some(RouteView::Transfer)
        } else {
            None
        }
    }
}

/// The view of an optional route.
pub open spec fn opt_route_view(r: Option<Route>) -> Option<RouteView> {
    match r {
        Some(x) => Some(x@),
        None => None,
    }
}

/// Whether the characters `v[a..b]` spell `lit`.
fn range_is(v: &Vec<char>, a: usize, b: usize, lit: &str) -> (r: bool)
    requires
        a <= b <= v@.len(),
    ensures
        r == (v@.subrange(a as int, b as int) == lit@),
{
    let w = chars_of(lit);
    if b - a != w.len() {
        return false;
    }
    let mut i: usize = 0;
    while i < w.len()
        invariant
            i <= w@.len(),
            b - a == w@.len(),
            a <= b <= v@.len(),
            w@ == lit@,
            forall|k: int| 0 <= k < i ==> v@[a + k] == w@[k],
        decreases w@.len() - i,
    {
        if v[a + i] != w[i] {
            assert(v@.subrange(a as int, b as int)[i as int] != w@[i as int]);
            return false;
        }
        i += 1;
    }
    assert(v@.subrange(a as int, b as int) =~= w@);
    true
}

/// The characters of a range as a string.
fn range_string(v: &Vec<char>, a: usize, b: usize) -> (r: String)
    requires
        a <= b <= v@.len(),
    ensures
        r@ == v@.subrange(a as int, b as int),
{
    let mut r = String::new();
    let mut i = a;
    while i < b
        invariant
            a <= i <= b,
            b <= v@.len(),
            r@ == v@.subrange(a as int, i as int),
        decreases b - i,
    {
        crate::text::push_char(&mut r, v[i]);
        i += 1;
        assert(r@ =~= v@.subrange(a as int, i as int));
    }
    r
}

/// The route a request takes, if the server serves it.
pub fn match_route(method: Method, path: &str) -> (r: Option<Route>)
    ensures
        opt_route_view(r) == spec_route(method, path@),
{
    let v = chars_of(path);
    let n = v.len();
    let lo: usize = if n > 0 && v[0] == '/' {
        1
    } else {
        0
    };
    assert(v@.subrange(lo as int, n as int) =~= path_rest(path@));
    let ps = split_range(&v, lo, n, '/');
    let ghost segs = split(path_rest(path@), '/');
    proof {
        crate::text::lemma_split_nonempty(path_rest(path@), '/');
        assert(range_pieces(v@, ps@)[0] == v@.subrange(ps@[0].0 as int, ps@[0].1 as int));
    }
    let (a0, b0) = ps[0];
    assert(segs[0] == v@.subrange(a0 as int, b0 as int));
    if !range_is(&v, a0, b0, "api") {
        return None;
    }
    let (a1, b1) = if ps.len() > 1 {
        assert(range_pieces(v@, ps@)[1] == v@.subrange(ps@[1].0 as int, ps@[1].1 as int));
        ps[1]
    } else {
        (n, n)
    };
    assert(path_segment(path@, 1) =~= v@.subrange(a1 as int, b1 as int));
    let (a2, b2) = if ps.len() > 2 {
        assert(range_pieces(v@, ps@)[2] == v@.subrange(ps@[2].0 as int, ps@[2].1 as int));
        ps[2]
    } else {
        (n, n)
    };
    assert(path_segment(path@, 2) =~= v@.subrange(a2 as int, b2 as int));
    if range_is(&v, a1, b1, "status") && method == Method::Get {
        Some(Route::Status)
    } else if range_is(&v, a1, b1, "upload") && method == Method::Post {
        Some(Route::Upload)
    } else if range_is(&v, a1, b1, "download") && b2 > a2 && method == Method::Get {
        Some(Route::Download(range_string(&v, a2, b2)))
    } else if range_is(&v, a1, b1, "connect") && method == Method::Post {
        Some(Route::Connect)
    } else if range_is(&v, a1, b1, "transfer") && method == Method::Post {
        Some(Route::Transfer)
    } else {
        None
    }
}

/// The answer to an upload.
#[derive(Clone, Debug)]
pub struct UploadReply {
    pub success: bool,
    pub file_id: Option<String>,
    pub message: String,
}

/// An upload whose bytes are still to be saved: the identifier it gets,
/// what the server records for it once saved, and where its bytes go.
#[derive(Clone, Debug)]
pub struct PreparedUpload {
    pub file_id: String,
    pub info: FileInfo,
    pub disk_path: String,
}

/// The answer to a connection request.
#[derive(Clone, Debug)]
pub struct ConnectionReply {
    pub success: bool,
    pub message: String,
    pub connection_id: String,
}

/// The answer to a file transfer request.
#[derive(Clone, Debug)]
pub struct TransferReply {
    pub success: bool,
    pub message: String,
    pub file_id: String,
}

/// What to do with a download request.
#[derive(Clone, Debug)]
pub enum DownloadPlan {
    /// Send the bytes stored at `disk_path`, with this `Content-Disposition`.
    Serve { disk_path: String, content_disposition: String },
    /// Answer 404 with the body `{"error": "File not found"}`.
    NotFound,
}

/// The directory uploads are stored in.
pub open spec fn upload_dir() -> Seq<char> {
    "./uploads/"@
}

/// Where the bytes of file `id` are stored.
pub fn upload_path(id: &str) -> (r: String)
    ensures
        r@ == "./uploads/"@ + id@,
{
    concat_str("./uploads/", id)
}

/// The message of a 404 answer to a download.
pub fn not_found_message() -> (r: String)
    ensures
        r@ == "File not found"@,
{
    "File not found".to_owned()
}

/// The answer to an upload request that carried no file.
pub fn no_file_reply() -> (r: UploadReply)
    ensures
        !r.success,
        r.file_id is None,
        r.message@ == "No file received"@,
{
    UploadReply { success: false, file_id: None, message: "No file received".to_owned() }
}

/// What to do with one part of an upload form.
#[derive(Clone, Debug)]
pub enum PartAction {
    /// Pass over it and read the next part.
    Skip,
    /// Receive its bytes as the uploaded file named `file_name`.
    Receive { file_name: String },
}

/// The part of an upload form that is taken as the file: a part that could
/// not be read (`Err`) or that names no file (`Ok(None)`) is passed over;
/// the first one that names a file is received.
pub fn upload_part_action(part: Result<Option<String>, String>) -> (r: PartAction)
    ensures
        match part {
            Ok(Some(n)) => r matches PartAction::Receive { file_name } && file_name@ == n@,
            _ => r is Skip,
        },
{
    match part {
        Ok(Some(n)) => PartAction::Receive { file_name: n },
        _ => PartAction::Skip,
    }
}

/// The bytes of an uploaded file as they arrive, and the error that cut
/// them short, if one did.
#[derive(Clone, Debug)]
pub struct UploadBody {
    pub data: Vec<u8>,
    pub error: Option<String>,
}

/// The view of an optional error.
pub open spec fn opt_error_view(e: Option<String>) -> Option<Seq<char>> {
    match e {
        Some(x) => Some(x@),
        None => None,
    }
}

impl UploadBody {
    /// Nothing received yet.
    pub fn new() -> (r: UploadBody)
        ensures
            r.data@.len() == 0,
            r.error is None,
    {
        UploadBody { data: Vec::new(), error: None }
    }

    /// Takes the next chunk of the file's stream. The bytes of a chunk that
    /// arrived are appended, and reading goes on (`true`); a chunk that
    /// could not be read ends the reception with its error (`false`), since
    /// the file did not fully arrive.
    pub fn take_chunk(&mut self, chunk: Result<&[u8], String>) -> (more: bool)
        ensures
            match chunk {
                Ok(b) => {
                    &&& more
                    &&& final(self).data@ == old(self).data@ + b@
                    &&& final(self).error == old(self).error
                },
                Err(e) => {
                    &&& !more
                    &&& final(self).data@ == old(self).data@
                    &&& opt_error_view(final(self).error) == Some(e@)
                },
            },
    {
        match chunk {
            Ok(b) => {
                let ghost d0 = self.data@;
                self.data.extend_from_slice(b);
                assert(self.data@ =~= d0 + b@);
                true
            },
            Err(e) => {
                self.error = Some(e);
                false
            },
        }
    }

    /// Whether the file fully arrived: `Ok` when no chunk failed, else the
    /// error of the one that did. Only a file that arrived is saved.
    pub fn received(&self) -> (r: Result<(), String>)
        ensures
            match self.error {
                None => r is Ok,
                Some(e) => r matches Err(m) && m@ == e@,
            },
    {
        match &self.error {
            None => Ok(()),
            Some(e) => Err(e.clone()),
        }
    }
}

/// What the server records for an uploaded file.
pub open spec fn uploaded_info(name: Seq<char>, data: Seq<u8>) -> FileInfoView {
    FileInfoView {
        name: name,
        size: data.len() as u64,
        mime_type: guessed_mime_type(name),
        hash: hex_lower(sha256_digest(data)),
    }
}

/// The `Content-Disposition` value that names a download `name`.
pub open spec fn disposition(name: Seq<char>) -> Seq<char> {
    "attachment; filename=\""@ + name + "\""@
}

/// What a download request for `id` gets.
pub open spec fn spec_download(files: Map<Seq<char>, FileInfoView>, id: Seq<char>) -> Option<
    (Seq<char>, Seq<char>),
> {
    if files.contains_key(id) {
        Some((upload_dir() + id, disposition(files[id].name)))
    } else {
        None
    }
}

/// The view of a download plan.
pub open spec fn plan_view(p: DownloadPlan) -> Option<(Seq<char>, Seq<char>)> {
    match p {
        DownloadPlan::Serve { disk_path, content_disposition } => Some(
            (disk_path@, content_disposition@),
        ),
        DownloadPlan::NotFound => None,
    }
}

/// A file that was uploaded is found when it is asked for by its
/// identifier, under the name it was uploaded with.
pub proof fn law_download_finds_upload(
    files: Map<Seq<char>, FileInfoView>,
    id: Seq<char>,
    name: Seq<char>,
    data: Seq<u8>,
)
    ensures
        spec_download(files.insert(id, uploaded_info(name, data)), id) == Some(
            (upload_dir() + id, disposition(name)),
        ),
{
}

/// The hash recorded for an upload covers all of its bytes, whatever their
/// number: two uploads whose bytes have different SHA-256 digests are
/// recorded with different hashes.
pub proof fn law_upload_hash_tells_digests_apart(name: Seq<char>, d1: Seq<u8>, d2: Seq<u8>)
    requires
        sha256_digest(d1) != sha256_digest(d2),
    ensures
        uploaded_info(name, d1).hash != uploaded_info(name, d2).hash,
        uploaded_info(name, d1).hash == hex_lower(sha256_digest(d1)),
{
    if hex_lower(sha256_digest(d1)) == hex_lower(sha256_digest(d2)) {
        lemma_hex_lower_injective(sha256_digest(d1), sha256_digest(d2));
    }
}

/// Every non-empty identifier without a slash is served by
/// `GET /api/download/<id>`, however long it is.
pub proof fn law_download_routes_any_id(id: Seq<char>)
    requires
        id.len() > 0,
        forall|k: int| 0 <= k < id.len() ==> id[k] != '/',
    ensures
        spec_route(Method::Get, "/api/download/"@ + id) == Some(RouteView::Download(id)),
{
    reveal_strlit("/api/download/");
    reveal_strlit("api");
    reveal_strlit("download");
    reveal_strlit("status");
    let api = "api"@;
    let dl = "download"@;
    let p = "/api/download/"@ + id;
    lemma_split_free(api, '/');
    lemma_split_push_sep(api, '/');
    let x1 = api.push('/');
    lemma_split_append_free(x1, dl, '/');
    assert(split(x1, '/').last() + dl =~= dl);
    let x2 = x1 + dl;
    assert(split(x2, '/') =~= seq![api, dl]);
    lemma_split_push_sep(x2, '/');
    let x3 = x2.push('/');
    lemma_split_append_free(x3, id, '/');
    assert(split(x3, '/').last() + id =~= id);
    assert(split(x3 + id, '/') =~= seq![api, dl, id]);
    assert(path_rest(p) =~= x3 + id);
    assert(path_segment(p, 0) == api);
    assert(path_segment(p, 1) == dl);
    assert(path_segment(p, 2) == id);
    assert(dl != "status"@);
}

/// The identifier an upload is given is one that `GET /api/download/<id>`
/// serves.
pub proof fn law_uploaded_id_is_routed(id: Seq<char>)
    requires
        is_v4_uuid_text(id),
    ensures
        spec_route(Method::Get, "/api/download/"@ + id) == Some(RouteView::Download(id)),
{
    assert forall|k: int| 0 <= k < id.len() implies id[k] != '/' by {
        if !(k == 8 || k == 13 || k == 18 || k == 23) {
            assert(crate::platform::is_lower_hex_digit(id[k]));
        }
    }
    law_download_routes_any_id(id);
}

/// Recording one upload leaves every other file as it was.
pub proof fn law_upload_keeps_other_files(
    files: Map<Seq<char>, FileInfoView>,
    id: Seq<char>,
    other: Seq<char>,
    name: Seq<char>,
    data: Seq<u8>,
)
    requires
        other != id,
    ensures
        spec_download(files.insert(id, uploaded_info(name, data)), other) == spec_download(
            files,
            other,
        ),
{
}

/// Prepares an uploaded file for storing: a fresh identifier, its name,
/// size, guessed MIME type and the hex SHA-256 of its bytes, and the path its
/// bytes are to be saved at.
pub fn prepare_upload(file_name: &str, data: &[u8]) -> (r: PreparedUpload)
    ensures
        is_v4_uuid_text(r.file_id@),
        r.info@ == uploaded_info(file_name@, data@),
        r.info.name@ == file_name@,
        r.info.size == data@.len(),
        r.info.mime_type@ == guessed_mime_type(file_name@),
        r.info.hash@ == hex_lower(sha256_digest(data@)),
        r.disk_path@ == "./uploads/"@ + r.file_id@,
        r.disk_path@ == upload_dir() + r.file_id@,
{
    let file_size = data.len() as u64;
    let mime_type = guess_mime_type(file_name);
    let digest = sha256(data);
    let hash = hex_encode(digest.as_slice());
    let file_id = new_uuid_text();
    let info = FileInfo { name: file_name.to_owned(), size: file_size, mime_type, hash };
    let disk_path = upload_path(file_id.as_str());
    PreparedUpload { file_id, info, disk_path }
}

impl FileServer {
    /// A server on port 8080, named after the host, with nothing stored or
    /// pending.
    pub fn new() -> (r: Result<FileServer, String>)
        ensures
            r matches Ok(s) && s.port == 8080 && has_no_ascii_uppercase(s.device_name@)
                && s.files@ == Map::<
                Seq<char>,
                FileInfoView,
            >::empty() && s.pending_connections@.len() == 0 && s.pending_files@.len() == 0,
    {
        Ok(FileServer::named(host_name()))
    }

    /// A server on port 8080 that goes by `device_name`, with nothing stored
    /// or pending.
    pub fn named(device_name: String) -> (s: FileServer)
        ensures
            s.port == 8080,
            s.device_name@ == device_name@,
            s.files@ == Map::<Seq<char>, FileInfoView>::empty(),
            s.pending_connections@.len() == 0,
            s.pending_files@.len() == 0,
    {
        FileServer {
            port: SERVER_PORT,
            device_name,
            files: FileStore::new(),
            pending_connections: Vec::new(),
            pending_files: Vec::new(),
        }
    }

    /// The status report: the server's name, "online", and every stored
    /// file's information, each file once.
    pub fn status(&self) -> (r: ServerStatus)
        ensures
            r.name@ == self.device_name@,
            r.status@ == "online"@,
            r.files@.len() == self.files.key_order().len(),
            self.files.key_order().no_duplicates(),
            self.files.key_order().to_set() == self.files@.dom(),
            forall|i: int|
                0 <= i < r.files@.len() ==> (#[trigger] r.files@[i])@
                    == self.files@[self.files.key_order()[i]],
    {
        ServerStatus {
            name: self.device_name.clone(),
            status: "online".to_owned(),
            files: self.files.values(),
        }
    }

    /// Records an upload once its bytes are saved. When saving succeeded
    /// (`saved` is `Ok`), the file's information is kept under its
    /// identifier and the answer is a success naming it; otherwise nothing
    /// is kept and the answer is a failure with the reason.
    pub fn finish_upload(&mut self, upload: PreparedUpload, saved: Result<(), String>) -> (r:
        UploadReply)
        ensures
            saved is Ok ==> ({
                &&& final(self).files@ == old(self).files@.insert(upload.file_id@, upload.info@)
                &&& r.success
                &&& (r.file_id matches Some(id) && id@ == upload.file_id@)
                &&& r.message@ == "File uploaded successfully"@
            }),
            saved matches Err(e) ==> ({
                &&& final(self).files@ == old(self).files@
                &&& !r.success
                &&& r.file_id is None
                &&& r.message@ == "Failed to save file: "@ + e@
            }),
            final(self).port == old(self).port,
            final(self).device_name == old(self).device_name,
            final(self).pending_connections == old(self).pending_connections,
            final(self).pending_files == old(self).pending_files,
    {
        match saved {
            Ok(()) => {
                let id = upload.file_id.clone();
                self.files.insert(upload.file_id, upload.info);
                UploadReply {
                    success: true,
                    file_id: Some(id),
                    message: "File uploaded successfully".to_owned(),
                }
            },
            Err(e) => UploadReply {
                success: false,
                file_id: None,
                message: concat_str("Failed to save file: ", e.as_str()),
            },
        }
    }

    /// Where to find the bytes of a requested file, and how to name them.
    pub fn plan_download(&self, file_id: &str) -> (r: DownloadPlan)
        ensures
            plan_view(r) == spec_download(self.files@, file_id@),
    {
        match self.files.get(file_id) {
            Some(info) => {
                let mut d = "attachment; filename=\"".to_owned();
                d.append(info.name.as_str());
                d.append("\"");
                DownloadPlan::Serve { disk_path: upload_path(file_id), content_disposition: d }
            },
            None => DownloadPlan::NotFound,
        }
    }

    /// Records a connection request under a fresh identifier, stamped with
    /// the current time, and answers with that identifier.
    pub fn handle_connection_request(&mut self, request: ConnectionRequest) -> (r: ConnectionReply)
        ensures
            final(self).pending_connections@.len() == old(self).pending_connections@.len() + 1,
            final(self).pending_connections@.drop_last() == old(self).pending_connections@,
            ({
                let c = final(self).pending_connections@.last();
                &&& c.id@ == r.connection_id@
                &&& is_v4_uuid_text(c.id@)
                &&& c.device_name@ == request.device_name@
                &&& c.device_ip@ == request.device_ip@
                &&& c.timestamp.nanos < 1_000_000_000
            }),
            r.success,
            r.message@ == "Connection request sent"@,
            final(self).files == old(self).files,
            final(self).pending_files == old(self).pending_files,
            final(self).port == old(self).port,
            final(self).device_name == old(self).device_name,
    {
        let connection = IncomingConnection {
            id: new_uuid_text(),
            device_name: request.device_name,
            device_ip: request.device_ip,
            timestamp: current_time(),
        };
        let id = connection.id.clone();
        self.pending_connections.push(connection);
        ConnectionReply {
            success: true,
            message: "Connection request sent".to_owned(),
            connection_id: id,
        }
    }

    /// Records a file transfer request under a fresh identifier, stamped
    /// with the current time, and answers with that identifier.
    pub fn handle_file_transfer_request(&mut self, request: FileTransferRequest) -> (r:
        TransferReply)
        ensures
            final(self).pending_files@.len() == old(self).pending_files@.len() + 1,
            final(self).pending_files@.drop_last() == old(self).pending_files@,
            ({
                let f = final(self).pending_files@.last();
                &&& f.id@ == r.file_id@
                &&& is_v4_uuid_text(f.id@)
                &&& f.file_name@ == request.file_name@
                &&& f.file_size == request.file_size
                &&& f.sender_name@ == request.sender_name@
                &&& f.sender_ip@ == request.sender_ip@
                &&& f.timestamp.nanos < 1_000_000_000
            }),
            r.success,
            r.message@ == "File transfer request sent"@,
            final(self).files == old(self).files,
            final(self).pending_connections == old(self).pending_connections,
            final(self).port == old(self).port,
            final(self).device_name == old(self).device_name,
    {
        let file = IncomingFile {
            id: new_uuid_text(),
            file_name: request.file_name,
            file_size: request.file_size,
            sender_name: request.sender_name,
            sender_ip: request.sender_ip,
            timestamp: current_time(),
        };
        let id = file.id.clone();
        self.pending_files.push(file);
        TransferReply { success: true, message: "File transfer request sent".to_owned(), file_id: id }
    }
}

} // verus!
