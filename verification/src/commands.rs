//! The application's state and the commands the user interface issues:
//! starting and stopping the server, keeping the list of known devices, and
//! answering pending connection and file transfer requests.

use vstd::prelude::*;
use crate::network::{duplicate_devices, Device};
use crate::platform::is_v4_uuid_text;
use crate::server::{FileServer, IncomingConnection, IncomingFile, SERVER_PORT};
use crate::store::FileInfoView;
use crate::text::concat_str;

verus! {

/// What the application keeps between commands.
pub struct AppState {
    pub server_running: bool,
    pub devices: Vec<Device>,
    pub pending_connections: Vec<IncomingConnection>,
    pub pending_files: Vec<IncomingFile>,
}

/// A download that an approved file transfer starts.
#[derive(Clone, Debug)]
pub struct DownloadJob {
    pub sender_ip: String,
    pub file_id: String,
    pub save_path: String,
}

/// `i` is the first pending connection whose identifier is `id`.
pub open spec fn first_connection(s: Seq<IncomingConnection>, id: Seq<char>, i: int) -> bool {
    &&& 0 <= i < s.len()
    &&& s[i].id@ == id
    &&& forall|j: int| 0 <= j < i ==> (#[trigger] s[j]).id@ != id
}

/// No pending connection has identifier `id`.
pub open spec fn no_connection(s: Seq<IncomingConnection>, id: Seq<char>) -> bool {
    forall|j: int| 0 <= j < s.len() ==> (#[trigger] s[j]).id@ != id
}

/// `i` is the first pending transfer whose identifier is `id`.
pub open spec fn first_file(s: Seq<IncomingFile>, id: Seq<char>, i: int) -> bool {
    &&& 0 <= i < s.len()
    &&& s[i].id@ == id
    &&& forall|j: int| 0 <= j < i ==> (#[trigger] s[j]).id@ != id
}

/// No pending transfer has identifier `id`.
pub open spec fn no_file(s: Seq<IncomingFile>, id: Seq<char>) -> bool {
    forall|j: int| 0 <= j < s.len() ==> (#[trigger] s[j]).id@ != id
}

/// The position of the first pending connection with identifier `id`.
fn find_connection(s: &Vec<IncomingConnection>, id: &String) -> (r: Option<usize>)
    ensures
        match r {
            Some(i) => first_connection(s@, id@, i as int),
            None => no_connection(s@, id@),
        },
{
    let mut i: usize = 0;
    while i < s.len()
        invariant
            i <= s@.len(),
            forall|j: int| 0 <= j < i ==> (#[trigger] s@[j]).id@ != id@,
        decreases s@.len() - i,
    {
        if s[i].id == *id {
            return Some(i);
        }
        i += 1;
    }
    None
}

/// The position of the first pending transfer with identifier `id`.
fn find_file(s: &Vec<IncomingFile>, id: &String) -> (r: Option<usize>)
    ensures
        match r {
            Some(i) => first_file(s@, id@, i as int),
            None => no_file(s@, id@),
        },
{
    let mut i: usize = 0;
    while i < s.len()
        invariant
            i <= s@.len(),
            forall|j: int| 0 <= j < i ==> (#[trigger] s@[j]).id@ != id@,
        decreases s@.len() - i,
    {
        if s[i].id == *id {
            return Some(i);
        }
        i += 1;
    }
    None
}

/// A recorded connection request can be answered: when no earlier pending
/// request has its identifier, it is the first match for that identifier,
/// and removing it leaves the earlier requests as they were.
pub proof fn law_recorded_request_is_answerable(s: Seq<IncomingConnection>, c: IncomingConnection)
    requires
        no_connection(s, c.id@),
    ensures
        first_connection(s.push(c), c.id@, s.len() as int),
        s.push(c).remove(s.len() as int) == s,
{
    assert forall|j: int| 0 <= j < s.len() implies (#[trigger] s.push(c)[j]).id@ != c.id@ by {
        assert(s.push(c)[j] == s[j]);
    }
    assert(s.push(c).remove(s.len() as int) =~= s);
}

/// A pending request is answered once: when identifiers are distinct,
/// none is left with the identifier of the one that was removed.
pub proof fn law_answered_request_is_gone(s: Seq<IncomingConnection>, id: Seq<char>, i: int)
    requires
        forall|a: int, b: int|
            0 <= a < s.len() && 0 <= b < s.len() && a != b ==> (#[trigger] s[a]).id@ != (
            #[trigger] s[b]).id@,
        first_connection(s, id, i),
    ensures
        no_connection(s.remove(i), id),
{
    assert forall|j: int| 0 <= j < s.remove(i).len() implies (#[trigger] s.remove(i)[j]).id@
        != id by {
        if j < i {
            assert(s.remove(i)[j] == s[j]);
        } else {
            assert(s.remove(i)[j] == s[j + 1]);
            assert(s[j + 1].id@ != s[i].id@);
        }
    }
}

impl AppState {
    /// No server, no devices, nothing pending.
    pub fn new() -> (r: AppState)
        ensures
            !r.server_running,
            r.devices@.len() == 0,
            r.pending_connections@.len() == 0,
            r.pending_files@.len() == 0,
    {
        AppState {
            server_running: false,
            devices: Vec::new(),
            pending_connections: Vec::new(),
            pending_files: Vec::new(),
        }
    }

    /// Starts the server unless one is running. A new server comes back to
    /// be run; the message says which happened.
    pub fn start_server(&mut self) -> (r: (Option<FileServer>, Result<String, String>))
        ensures
            old(self).server_running ==> ({
                &&& r.0 is None
                &&& (r.1 matches Ok(m) && m@ == "Server already running"@)
                &&& *final(self) == *old(self)
            }),
            !old(self).server_running ==> ({
                &&& (r.0 matches Some(s) && s.port == 8080 && s.files@ == Map::<
                    Seq<char>,
                    FileInfoView,
                >::empty() && s.pending_connections@.len() == 0 && s.pending_files@.len() == 0)
                &&& (r.1 matches Ok(m) && m@ == "Server started successfully"@)
                &&& final(self).server_running
                &&& final(self).devices == old(self).devices
                &&& final(self).pending_connections == old(self).pending_connections
                &&& final(self).pending_files == old(self).pending_files
            }),
    {
        if self.server_running {
            return (None, Ok("Server already running".to_owned()));
        }
        match FileServer::new() {
            Ok(server) => {
                self.server_running = true;
                (Some(server), Ok("Server started successfully".to_owned()))
            },
            Err(e) => (None, Err(concat_str("Failed to start server: ", e.as_str()))),
        }
    }

    /// Forgets the running server.
    pub fn stop_server(&mut self) -> (r: Result<String, String>)
        ensures
            r matches Ok(m) && m@ == "Server stopped"@,
            !final(self).server_running,
            final(self).devices == old(self).devices,
            final(self).pending_connections == old(self).pending_connections,
            final(self).pending_files == old(self).pending_files,
    {
        self.server_running = false;
        Ok("Server stopped".to_owned())
    }

    /// Replaces the known devices with those a discovery found: the
    /// scanned ones, then the announced ones. Returns them.
    pub fn record_discovery(&mut self, scanned: Vec<Device>, announced: Vec<Device>) -> (r: Vec<
        Device,
    >)
        ensures
            r@ == scanned@ + announced@,
            final(self).devices@ == r@,
            final(self).server_running == old(self).server_running,
            final(self).pending_connections == old(self).pending_connections,
            final(self).pending_files == old(self).pending_files,
    {
        let mut all = scanned;
        let ghost s0 = all@;
        let mut i: usize = 0;
        while i < announced.len()
            invariant
                i <= announced@.len(),
                all@ == s0 + announced@.take(i as int),
            decreases announced@.len() - i,
        {
            all.push(announced[i].duplicate());
            i += 1;
            assert(all@ =~= s0 + announced@.take(i as int));
        }
        assert(announced@.take(announced@.len() as int) =~= announced@);
        self.devices = duplicate_devices(&all);
        all
    }

    /// The known devices.
    pub fn devices(&self) -> (r: Vec<Device>)
        ensures
            r@ == self.devices@,
    {
        duplicate_devices(&self.devices)
    }

    /// The pending connection requests.
    pub fn pending_connections(&self) -> (r: Vec<IncomingConnection>)
        ensures
            r@ == self.pending_connections@,
    {
        let mut r: Vec<IncomingConnection> = Vec::new();
        let mut i: usize = 0;
        while i < self.pending_connections.len()
            invariant
                i <= self.pending_connections@.len(),
                r@ == self.pending_connections@.take(i as int),
            decreases self.pending_connections@.len() - i,
        {
            r.push(self.pending_connections[i].duplicate());
            i += 1;
            assert(r@ =~= self.pending_connections@.take(i as int));
        }
        assert(self.pending_connections@.take(self.pending_connections@.len() as int)
            =~= self.pending_connections@);
        r
    }

    /// The pending file transfers.
    pub fn pending_files(&self) -> (r: Vec<IncomingFile>)
        ensures
            r@ == self.pending_files@,
    {
        let mut r: Vec<IncomingFile> = Vec::new();
        let mut i: usize = 0;
        while i < self.pending_files.len()
            invariant
                i <= self.pending_files@.len(),
                r@ == self.pending_files@.take(i as int),
            decreases self.pending_files@.len() - i,
        {
            r.push(self.pending_files[i].duplicate());
            i += 1;
            assert(r@ =~= self.pending_files@.take(i as int));
        }
        assert(self.pending_files@.take(self.pending_files@.len() as int) =~= self.pending_files@);
        r
    }

    /// Answers the first pending connection request with identifier
    /// `connection_id`: it leaves the pending list, and when approved, its
    /// device joins the known devices on the server port.
    pub fn approve_connection(&mut self, connection_id: &str, approved: bool) -> (r: Result<
        String,
        String,
    >)
        ensures
            no_connection(old(self).pending_connections@, connection_id@) ==> (r matches Err(m)
                && m@ == "Connection not found"@ && *final(self) == *old(self)),
            !no_connection(old(self).pending_connections@, connection_id@) ==> exists|i: int|
                {
                    &&& first_connection(old(self).pending_connections@, connection_id@, i)
                    &&& final(self).pending_connections@ == old(self).pending_connections@.remove(i)
                    &&& if approved {
                        let c = old(self).pending_connections@[i];
                        &&& final(self).devices@.len() == old(self).devices@.len() + 1
                        &&& final(self).devices@.drop_last() == old(self).devices@
                        &&& final(self).devices@.last().name@ == c.device_name@
                        &&& final(self).devices@.last().ip@ == c.device_ip@
                        &&& final(self).devices@.last().port == 8080
                        &&& is_v4_uuid_text(final(self).devices@.last().id@)
                        &&& r matches Ok(m) && m@ == "Connection approved"@
                    } else {
                        &&& final(self).devices == old(self).devices
                        &&& r matches Ok(m) && m@ == "Connection rejected"@
                    }
                },
            final(self).server_running == old(self).server_running,
            final(self).pending_files == old(self).pending_files,
    {
        let id = connection_id.to_owned();
        match find_connection(&self.pending_connections, &id) {
            None => Err("Connection not found".to_owned()),
            Some(i) => {
                let connection = self.pending_connections.remove(i);
                if approved {
                    let ghost d0 = self.devices@;
                    self.devices.push(
                        Device::new(connection.device_name, connection.device_ip, SERVER_PORT),
                    );
                    assert(self.devices@.drop_last() =~= d0);
                    Ok("Connection approved".to_owned())
                } else {
                    Ok("Connection rejected".to_owned())
                }
            },
        }
    }

    /// Answers the first pending file transfer with identifier `file_id`:
    /// it leaves the pending list; when approved with a place to save to,
    /// a download of that file from its sender is to be started.
    pub fn approve_file_transfer(
        &mut self,
        file_id: &str,
        approved: bool,
        save_path: Option<String>,
    ) -> (r: (Result<String, String>, Option<DownloadJob>))
        ensures
            no_file(old(self).pending_files@, file_id@) ==> (r.0 matches Err(m) && m@
                == "File not found"@ && r.1 is None && *final(self) == *old(self)),
            !no_file(old(self).pending_files@, file_id@) ==> exists|i: int|
                {
                    &&& first_file(old(self).pending_files@, file_id@, i)
                    &&& final(self).pending_files@ == old(self).pending_files@.remove(i)
                    &&& if !approved {
                        r.0 matches Ok(m) && m@ == "File transfer rejected"@ && r.1 is None
                    } else if save_path is None {
                        r.0 matches Err(m) && m@ == "Save path required for file approval"@
                            && r.1 is None
                    } else {
                        &&& r.0 matches Ok(m) && m@ == "File transfer approved"@
                        &&& r.1 matches Some(job) && job.sender_ip@
                            == old(self).pending_files@[i].sender_ip@ && job.file_id@ == file_id@
                            && job.save_path@ == save_path.unwrap()@
                    }
                },
            final(self).server_running == old(self).server_running,
            final(self).devices == old(self).devices,
            final(self).pending_connections == old(self).pending_connections,
    {
        let id = file_id.to_owned();
        match find_file(&self.pending_files, &id) {
            None => (Err("File not found".to_owned()), None),
            Some(i) => {
                let file = self.pending_files.remove(i);
                if approved {
                    match save_path {
                        Some(path) => (
                            Ok("File transfer approved".to_owned()),
                            Some(DownloadJob { sender_ip: file.sender_ip, file_id: id, save_path: path }),
                        ),
                        None => (Err("Save path required for file approval".to_owned()), None),
                    }
                } else {
                    (Ok("File transfer rejected".to_owned()), None)
                }
            },
        }
    }
}

} // verus!
