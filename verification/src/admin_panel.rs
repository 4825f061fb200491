//! The wire vocabulary shared by both peers: control messages, the
//! raw-framed upload message, and the record types they carry.
//!
//! The encoding lives in the codec module; this one holds the data
//! types, their mathematical views, and the log holder that collects
//! log records on the panel side of the wire.

use vstd::prelude::*;
use vstd::string::StringExecFns;

verus! {

/// A panel operator.
pub struct TgUser {
    pub id: u64,
    pub user_name: String,
}

impl TgUser {
    /// A fixed sample operator.
    pub fn test() -> (r: Self)
        ensures
            r.id == 1488,
            r.user_name@ == "Test User"@,
    {
        TgUser { id: 1488, user_name: String::from_str("Test User") }
    }
}

/// One file row of a directory listing.
pub struct FileInfo {
    pub name: String,
    pub size: u64,
    pub created: i64,
    pub modified_at: i64,
    pub updated_by: u32,
    pub skip_hash_check: bool,
    pub deleted: bool,
}

/// One folder row of a directory listing.
pub struct FolderInfo {
    pub name: String,
    pub size: u64,
    pub created: i64,
    pub modified_at: i64,
    pub updated_by: u32,
    pub deleted: bool,
}

/// One patch note.
pub struct PatchNote {
    pub id: u32,
    pub data: String,
}

/// Severity of a log record.
#[derive(Copy, Clone, PartialEq, Eq, Structural, Debug)]
pub enum LogLevel {
    Debug,
    Info,
    Warning,
    Error,
}

/// A severity filter: one severity, or everything.
#[derive(Copy, Clone, PartialEq, Eq, Structural, Debug)]
pub enum LogLevelFilter {
    Debug,
    Info,
    Warning,
    Error,
    All,
}

/// One log record.
pub struct Log {
    pub level: LogLevel,
    pub producer: String,
    pub log: String,
    pub time: i64,
}

/// Numeric rank of a severity, for comparisons and for the wire.
pub open spec fn level_rank(l: LogLevel) -> int {
    match l {
        LogLevel::Debug => 0,
        LogLevel::Info => 1,
        LogLevel::Warning => 2,
        LogLevel::Error => 3,
    }
}

/// The larger of two severities.
pub open spec fn level_max(a: LogLevel, b: LogLevel) -> LogLevel {
    if level_rank(a) >= level_rank(b) {
        a
    } else {
        b
    }
}

/// The larger severity, executably.
pub fn level_max_exec(a: LogLevel, b: LogLevel) -> (r: LogLevel)
    ensures
        r == level_max(a, b),
{
    let ra: u8 = match a {
        LogLevel::Debug => 0,
        LogLevel::Info => 1,
        LogLevel::Warning => 2,
        LogLevel::Error => 3,
    };
    let rb: u8 = match b {
        LogLevel::Debug => 0,
        LogLevel::Info => 1,
        LogLevel::Warning => 2,
        LogLevel::Error => 3,
    };
    if ra >= rb {
        a
    } else {
        b
    }
}

// ---------------------------------------------------------------------
// Views.
// ---------------------------------------------------------------------

/// Model of a file row.
#[verifier::ext_equal]
pub struct FileInfoView {
    pub name: Seq<char>,
    pub size: u64,
    pub created: i64,
    pub modified_at: i64,
    pub updated_by: u32,
    pub skip_hash_check: bool,
    pub deleted: bool,
}

impl View for FileInfo {
    type V = FileInfoView;

    open spec fn view(&self) -> FileInfoView {
        FileInfoView {
            name: self.name@,
            size: self.size,
            created: self.created,
            modified_at: self.modified_at,
            updated_by: self.updated_by,
            skip_hash_check: self.skip_hash_check,
            deleted: self.deleted,
        }
    }
}

/// Model of a folder row.
#[verifier::ext_equal]
pub struct FolderInfoView {
    pub name: Seq<char>,
    pub size: u64,
    pub created: i64,
    pub modified_at: i64,
    pub updated_by: u32,
    pub deleted: bool,
}

impl View for FolderInfo {
    type V = FolderInfoView;

    open spec fn view(&self) -> FolderInfoView {
        FolderInfoView {
            name: self.name@,
            size: self.size,
            created: self.created,
            modified_at: self.modified_at,
            updated_by: self.updated_by,
            deleted: self.deleted,
        }
    }
}

/// Model of a patch note.
#[verifier::ext_equal]
pub struct PatchNoteView {
    pub id: u32,
    pub data: Seq<char>,
}

impl View for PatchNote {
    type V = PatchNoteView;

    open spec fn view(&self) -> PatchNoteView {
        PatchNoteView { id: self.id, data: self.data@ }
    }
}

/// Model of a log record.
#[verifier::ext_equal]
pub struct LogView {
    pub level: LogLevel,
    pub producer: Seq<char>,
    pub log: Seq<char>,
    pub time: i64,
}

impl View for Log {
    type V = LogView;

    open spec fn view(&self) -> LogView {
        LogView { level: self.level, producer: self.producer@, log: self.log@, time: self.time }
    }
}

// ---------------------------------------------------------------------
// The two message families.
// ---------------------------------------------------------------------

/// A message from the panel to the store's server.  `AddFile` is the
/// raw-framed upload; everything else travels generically encoded.
#[allow(inconsistent_fields)]
pub enum ClientPacket {
    FileList { dir: String },
    RemoveFile { dir: String, name: String },
    RemoveFolder { dir: String, name: String },
    AddFile { id: u128, dir: String, name: String, file: Vec<u8> },
    PatchNotes { take: u32, skip: u32 },
    SavePatchNote { id: u32, data: String },
    AddPatchNote { data: String },
    DeletePatchNote { id: u32 },
    RequestEditPatchNote { id: u32 },
    CreateFolder { dir: String, name: String },
    SkipFileHashCheck { dir: String, name: String },
    Logs,
}

/// Model of a client message.
#[allow(inconsistent_fields)]
#[verifier::ext_equal]
pub enum ClientPacketView {
    FileList { dir: Seq<char> },
    RemoveFile { dir: Seq<char>, name: Seq<char> },
    RemoveFolder { dir: Seq<char>, name: Seq<char> },
    AddFile { id: u128, dir: Seq<char>, name: Seq<char>, file: Seq<u8> },
    PatchNotes { take: u32, skip: u32 },
    SavePatchNote { id: u32, data: Seq<char> },
    AddPatchNote { data: Seq<char> },
    DeletePatchNote { id: u32 },
    RequestEditPatchNote { id: u32 },
    CreateFolder { dir: Seq<char>, name: Seq<char> },
    SkipFileHashCheck { dir: Seq<char>, name: Seq<char> },
    Logs,
}

impl View for ClientPacket {
    type V = ClientPacketView;

    open spec fn view(&self) -> ClientPacketView {
        match self {
            ClientPacket::FileList { dir } => ClientPacketView::FileList { dir: dir@ },
            ClientPacket::RemoveFile { dir, name } => ClientPacketView::RemoveFile {
                dir: dir@,
                name: name@,
            },
            ClientPacket::RemoveFolder { dir, name } => ClientPacketView::RemoveFolder {
                dir: dir@,
                name: name@,
            },
            ClientPacket::AddFile { id, dir, name, file } => ClientPacketView::AddFile {
                id: *id,
                dir: dir@,
                name: name@,
                file: file@,
            },
            ClientPacket::PatchNotes { take, skip } => ClientPacketView::PatchNotes {
                take: *take,
                skip: *skip,
            },
            ClientPacket::SavePatchNote { id, data } => ClientPacketView::SavePatchNote {
                id: *id,
                data: data@,
            },
            ClientPacket::AddPatchNote { data } => ClientPacketView::AddPatchNote { data: data@ },
            ClientPacket::DeletePatchNote { id } => ClientPacketView::DeletePatchNote { id: *id },
            ClientPacket::RequestEditPatchNote { id } => ClientPacketView::RequestEditPatchNote {
                id: *id,
            },
            ClientPacket::CreateFolder { dir, name } => ClientPacketView::CreateFolder {
                dir: dir@,
                name: name@,
            },
            ClientPacket::SkipFileHashCheck { dir, name } => ClientPacketView::SkipFileHashCheck {
                dir: dir@,
                name: name@,
            },
            ClientPacket::Logs => ClientPacketView::Logs,
        }
    }
}

impl ClientPacket {
    /// Whether this message carries a large payload (the raw-framed
    /// upload path).
    pub fn is_heavy(&self) -> (r: bool)
        ensures
            r == (self@ is AddFile),
    {
        match self {
            ClientPacket::AddFile { .. } => true,
            _ => false,
        }
    }
}

/// A message from the store's server to the panel.
pub enum ServerPacket {
    FileList { dir: String, files: Vec<FileInfo>, folders: Vec<FolderInfo> },
    Logs(Vec<Log>),
    FileUploaded { id: u128 },
    FileProceeded { id: u128 },
    PatchNotes { take: u32, skip: u32, total: u32, patch_notes: Vec<PatchNote> },
    OpenPatchNote(PatchNote),
}

/// Model of a server message.
#[verifier::ext_equal]
pub enum ServerPacketView {
    FileList { dir: Seq<char>, files: Seq<FileInfoView>, folders: Seq<FolderInfoView> },
    Logs(Seq<LogView>),
    FileUploaded { id: u128 },
    FileProceeded { id: u128 },
    PatchNotes { take: u32, skip: u32, total: u32, patch_notes: Seq<PatchNoteView> },
    OpenPatchNote(PatchNoteView),
}

impl View for ServerPacket {
    type V = ServerPacketView;

    open spec fn view(&self) -> ServerPacketView {
        match self {
            ServerPacket::FileList { dir, files, folders } => ServerPacketView::FileList {
                dir: dir@,
                files: files@.map_values(|f: FileInfo| f@),
                folders: folders@.map_values(|f: FolderInfo| f@),
            },
            ServerPacket::Logs(logs) => ServerPacketView::Logs(
                logs@.map_values(|l: Log| l@),
            ),
            ServerPacket::FileUploaded { id } => ServerPacketView::FileUploaded { id: *id },
            ServerPacket::FileProceeded { id } => ServerPacketView::FileProceeded { id: *id },
            ServerPacket::PatchNotes { take, skip, total, patch_notes } => ServerPacketView::PatchNotes {
                take: *take,
                skip: *skip,
                total: *total,
                patch_notes: patch_notes@.map_values(|p: PatchNote| p@),
            },
            ServerPacket::OpenPatchNote(p) => ServerPacketView::OpenPatchNote(p@),
        }
    }
}

// ---------------------------------------------------------------------
// The log holder shared by the peers.
// ---------------------------------------------------------------------

/// Collected log records with their producers and display filters.
/// Producers are unique; the listing keeps insertion order.
pub struct LogHolder {
    pub producers: Vec<String>,
    pub server_logs: Vec<Log>,
    pub app_logs: Vec<Log>,
    pub producer_filter: String,
    pub max_log_level: LogLevel,
    pub level_filter: LogLevelFilter,
}

/// Whether a name occurs in a producer listing.
pub open spec fn has_producer(s: Seq<String>, p: Seq<char>) -> bool {
    exists|i: int| 0 <= i < s.len() && s[i]@ == p
}

/// Producer names are unique.
pub open spec fn producers_distinct(s: Seq<String>) -> bool {
    forall|i: int, j: int| 0 <= i < j < s.len() ==> s[i]@ != s[j]@
}

/// The producer listing after recording a batch of logs: each new
/// producer is appended once, in order of first appearance.
pub open spec fn producers_after(base: Seq<String>, logs: Seq<Log>) -> Seq<String>
    decreases logs.len(),
{
    if logs.len() == 0 {
        base
    } else {
        let b = producers_after(base, logs.drop_last());
        if has_producer(b, logs.last().producer@) {
            b
        } else {
            b.push(logs.last().producer)
        }
    }
}

/// The running maximum severity after a batch of logs.
pub open spec fn max_level_after(base: LogLevel, logs: Seq<Log>) -> LogLevel
    decreases logs.len(),
{
    if logs.len() == 0 {
        base
    } else {
        level_max(max_level_after(base, logs.drop_last()), logs.last().level)
    }
}

impl LogHolder {
    /// A fresh holder: one producer (the wildcard `All`), no records,
    /// informational level.
    pub fn new() -> (r: Self)
        ensures
            r.producers@.len() == 1 && r.producers@[0]@ == "All"@,
            r.server_logs@.len() == 0,
            r.app_logs@.len() == 0,
            r.producer_filter@ == "All"@,
            r.max_log_level == LogLevel::Info,
            r.level_filter == LogLevelFilter::Info,
            producers_distinct(r.producers@),
    {
        let mut producers: Vec<String> = Vec::new();
        producers.push(String::from_str("All"));
        LogHolder {
            producers,
            server_logs: Vec::new(),
            app_logs: Vec::new(),
            producer_filter: String::from_str("All"),
            max_log_level: LogLevel::Info,
            level_filter: LogLevelFilter::Info,
        }
    }

    /// Record a batch of server-side logs: append them all, raise the
    /// running maximum severity, and register unseen producers.
    pub fn add_server(&mut self, logs: Vec<Log>)
        requires
            producers_distinct(old(self).producers@),
        ensures
            final(self).server_logs@ == old(self).server_logs@ + logs@,
            final(self).producers@ == producers_after(old(self).producers@, logs@),
            final(self).max_log_level == max_level_after(old(self).max_log_level, logs@),
            producers_distinct(final(self).producers@),
            final(self).app_logs == old(self).app_logs,
            final(self).producer_filter == old(self).producer_filter,
            final(self).level_filter == old(self).level_filter,
    {
        let ghost logs0 = logs@;
        let mut rest = logs;
        let ghost mut done: int = 0;
        while rest.len() > 0
            invariant
                0 <= done,
                done + rest@.len() == logs0.len(),
                rest@ == logs0.skip(done),
                self.server_logs@ == old(self).server_logs@ + logs0.take(done),
                self.producers@ == producers_after(old(self).producers@, logs0.take(done)),
                self.max_log_level == max_level_after(old(self).max_log_level, logs0.take(done)),
                producers_distinct(self.producers@),
                self.app_logs == old(self).app_logs,
                self.producer_filter == old(self).producer_filter,
                self.level_filter == old(self).level_filter,
            decreases rest@.len(),
        {
            let entry = rest.remove(0);
            proof {
                assert(entry == logs0[done]);
                assert(logs0.take(done + 1).drop_last() =~= logs0.take(done));
                assert(logs0.take(done + 1).last() == logs0[done]);
                assert(rest@ =~= logs0.skip(done + 1));
            }
            self.max_log_level = level_max_exec(self.max_log_level, entry.level);
            let mut seen = false;
            let mut k: usize = 0;
            let m = self.producers.len();
            let ghost ps = self.producers@;
            while k < m && !seen
                invariant
                    m == self.producers@.len(),
                    ps == self.producers@,
                    k <= m,
                    seen ==> has_producer(self.producers@, entry.producer@),
                    !seen ==> (forall|x: int|
                        0 <= x < k as int ==> self.producers@[x]@ != entry.producer@),
                decreases m - k,
            {
                if self.producers[k] == entry.producer {
                    seen = true;
                }
                k += 1;
            }
            if !seen {
                let p = entry.producer.clone();
                self.producers.push(p);
                proof {
                    assert forall|x: int, y: int|
                        0 <= x < y < self.producers@.len() implies self.producers@[x]@
                        != self.producers@[y]@ by {
                        if y == self.producers@.len() - 1 {
                            assert(self.producers@[x] == ps[x]);
                            assert(self.producers@[y]@ == entry.producer@);
                        }
                    }
                }
            }
            self.server_logs.push(entry);
            proof {
                assert(self.server_logs@ =~= old(self).server_logs@ + logs0.take(done + 1));
                done = done + 1;
            }
        }
        proof {
            assert(logs0.take(logs0.len() as int) =~= logs0);
        }
    }

    /// Record one panel-side log.
    pub fn add_app(&mut self, log: Log)
        ensures
            final(self).app_logs@ == old(self).app_logs@.push(log),
            final(self).server_logs == old(self).server_logs,
            final(self).producers == old(self).producers,
            final(self).producer_filter == old(self).producer_filter,
            final(self).max_log_level == old(self).max_log_level,
            final(self).level_filter == old(self).level_filter,
    {
        self.app_logs.push(log);
    }
}

} // verus!
