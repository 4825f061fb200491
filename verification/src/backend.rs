//! The panel's backend: pure decision logic between the frontend and
//! the wire.
//!
//! The embedding application owns the channels and the socket; it
//! hands each decoded server message and each frontend event to the
//! step functions here, which update the panel state and return the
//! commands for the frontend and the messages to send.  Identifier
//! generation for uploads is chance, so the application draws the
//! fresh identifier and passes it in.

use vstd::prelude::*;
use vstd::string::StrSliceExecFns;
use vstd::string::StringExecFns;

use crate::admin_panel::ClientPacket;
use crate::admin_panel::ClientPacketView;
use crate::admin_panel::FileInfo;
use crate::admin_panel::FolderInfo;
use crate::admin_panel::Log;
use crate::admin_panel::LogHolder;
use crate::admin_panel::LogLevel;
use crate::admin_panel::PatchNote;
use crate::admin_panel::ServerPacket;

verus! {

/// A command from the backend to the frontend.
pub enum BackendCommand {
    OpenFileObserve { dir: String },
    OpenLogs,
    OpenPatchNotes,
    OpenPatchNote { id: Option<u32>, data: String },
}

/// An event the frontend emits.
pub enum FrontendEvent {
    CreateFolder { dir: String, name: String },
    RemoveFolder { dir: String, name: String },
    UploadFiles { dir: String, files: Vec<(String, Vec<u8>)> },
    RemoveFile { dir: String, name: String },
    SkipFileHashCheck { dir: String, name: String },
    RequestOpenScreen(Screen),
    SavePatchNote { id: Option<u32>, data: String },
    DeletePatchNote { id: u32 },
}

/// The screen the frontend shows.
pub enum Screen {
    Dashboard,
    PatchNotes,
    EditPatchNote { id: Option<u32> },
    Files { dir: String },
    Logs,
}

/// A modal dialog; `Hidden` shows none.  (The variant for the hidden
/// state carries a name of its own here.)
pub enum Dialog {
    Hidden,
    CreateFolder { dir: String, name: String },
}

/// The left menu's selection.
pub enum LeftBlockScreen {
    CommonMenu,
}

/// The right block's selection.
pub enum RightBlockScreen {
    Dashboard,
    PatchNotes,
    EditPatchNote,
    Files,
    Logs,
}

/// Progress of one upload.
#[derive(Copy, Clone, PartialEq, Eq, Structural, Debug)]
pub enum FileUploadState {
    Uploading,
    Processing,
    Completed,
}

/// A toast shown to the operator; uploads are keyed by their
/// correlation identifier.
pub enum Notification {
    FileUpload { id: u128, dir: String, name: String, state: FileUploadState },
}

impl Notification {
    /// The correlation identifier the notification is keyed by.
    pub open spec fn key(&self) -> u128 {
        match self {
            Notification::FileUpload { id, .. } => *id,
        }
    }
}

impl PartialEq for Notification {
    /// Notifications compare by key alone.
    fn eq(&self, other: &Self) -> (r: bool) {
        match self {
            Notification::FileUpload { id, .. } => {
                let Notification::FileUpload { id: other_id, .. } = other;
                *id == *other_id
            },
        }
    }
}

impl vstd::std_specs::cmp::PartialEqSpecImpl for Notification {
    open spec fn obeys_eq_spec() -> bool {
        true
    }

    open spec fn eq_spec(&self, other: &Notification) -> bool {
        self.key() == other.key()
    }
}

/// The file rows of the current listing, with the chosen sort keys.
/// Sorting is the frontend's presentation concern; rows keep the
/// server's listing order here.
pub struct FileInfoHolder {
    pub files: Vec<FileInfo>,
    pub folders: Vec<FolderInfo>,
    pub current_dir: String,
}

impl FileInfoHolder {
    /// An empty listing for the root.
    pub fn new() -> (r: Self)
        ensures
            r.files@.len() == 0,
            r.folders@.len() == 0,
            r.current_dir@ == Seq::<char>::empty(),
    {
        FileInfoHolder { files: Vec::new(), folders: Vec::new(), current_dir: String::new() }
    }

    /// Replace the listing.
    pub fn set(&mut self, files: Vec<FileInfo>, folders: Vec<FolderInfo>, dir: String)
        ensures
            final(self).files == files,
            final(self).folders == folders,
            final(self).current_dir == dir,
    {
        self.files = files;
        self.folders = folders;
        self.current_dir = dir;
    }

    pub fn files_count(&self) -> (r: usize)
        ensures
            r == self.files@.len(),
    {
        self.files.len()
    }

    pub fn folders_count(&self) -> (r: usize)
        ensures
            r == self.folders@.len(),
    {
        self.folders.len()
    }
}

/// The paged patch-note listing the panel shows.
pub struct PatchNoteHolder {
    pub take: u32,
    pub skip: u32,
    pub total: u32,
    pub patch_notes: Vec<PatchNote>,
}

impl PatchNoteHolder {
    /// An empty listing.
    pub fn new() -> (r: Self)
        ensures
            r.take == 0 && r.skip == 0 && r.total == 0 && r.patch_notes@.len() == 0,
    {
        PatchNoteHolder { take: 0, skip: 0, total: 0, patch_notes: Vec::new() }
    }
}

/// Directories travel on the wire without the leading `.`/`./` the
/// panel uses for display: `.` maps to the empty (root) path and
/// `./a/b` to `a/b`.
pub fn remove_leading_dot(dir: &str) -> (r: String)
    requires
        dir@.len() >= 1,
    ensures
        r@ == (if dir@.len() == 1 {
            Seq::<char>::empty()
        } else {
            dir@.skip(2)
        }),
{
    let n = dir.unicode_len();
    if n == 1 {
        String::new()
    } else {
        dir.substring_char(2, n).to_owned()
    }
}

/// The panel's display form of a wire directory: `.` for the root,
/// `./a/b` otherwise.
pub fn display_dir(dir: String) -> (r: String)
    ensures
        r@ == (if dir@.len() == 0 {
            "."@
        } else {
            "./"@ + dir@
        }),
{
    if dir.as_str().is_empty() {
        String::from_str(".")
    } else {
        String::from_str("./").concat(dir.as_str())
    }
}

/// The first notification keyed by `id` carries the new upload state;
/// everything else is unchanged.
pub open spec fn mark_upload(
    s: Seq<Notification>,
    id: u128,
    st: FileUploadState,
) -> Seq<Notification>
    decreases s.len(),
{
    if s.len() == 0 {
        s
    } else if s[0].key() == id {
        match s[0] {
            Notification::FileUpload { id: i0, dir, name, state } => seq![
                Notification::FileUpload { id: i0, dir, name, state: st },
            ] + s.skip(1),
        }
    } else {
        seq![s[0]] + mark_upload(s.skip(1), id, st)
    }
}

/// The panel's state that the decision logic owns.
pub struct Backend {
    pub notifications: Vec<Notification>,
    pub log_holder: LogHolder,
    pub patch_note_holder: PatchNoteHolder,
    pub file_info_holder: FileInfoHolder,
}

impl Backend {
    /// A fresh backend.
    pub fn new() -> (r: Self)
        ensures
            r.notifications@.len() == 0,
            r.log_holder.producers@.len() == 1,
            crate::admin_panel::producers_distinct(r.log_holder.producers@),
    {
        Backend {
            notifications: Vec::new(),
            log_holder: LogHolder::new(),
            patch_note_holder: PatchNoteHolder::new(),
            file_info_holder: FileInfoHolder::new(),
        }
    }

    /// Record a debug line in the panel's own log.
    pub fn debug(&mut self, text: &str, now: i64)
        ensures
            final(self).log_holder.app_logs@.len() == old(self).log_holder.app_logs@.len() + 1,
            final(self).log_holder.app_logs@.last().level == LogLevel::Debug,
            final(self).log_holder.app_logs@.last().producer@ == "App"@,
            final(self).log_holder.app_logs@.last().log@ == text@,
            final(self).log_holder.app_logs@.last().time == now,
            final(self).log_holder.app_logs@.take(old(self).log_holder.app_logs@.len() as int)
                == old(self).log_holder.app_logs@,
            final(self).notifications == old(self).notifications,
            final(self).patch_note_holder == old(self).patch_note_holder,
            final(self).file_info_holder == old(self).file_info_holder,
    {
        let entry = Log {
            level: LogLevel::Debug,
            producer: String::from_str("App"),
            log: text.to_owned(),
            time: now,
        };
        self.log_holder.add_app(entry);
        proof {
            assert(self.log_holder.app_logs@.take(old(self).log_holder.app_logs@.len() as int)
                =~= old(self).log_holder.app_logs@);
        }
    }
}

/// The display directory of the first notification keyed by `id`.
pub open spec fn find_upload_dir(s: Seq<Notification>, id: u128) -> Option<Seq<char>>
    decreases s.len(),
{
    if s.len() == 0 {
        None
    } else if s[0].key() == id {
        match s[0] {
            Notification::FileUpload { dir, .. } => Some(dir@),
        }
    } else {
        find_upload_dir(s.skip(1), id)
    }
}

proof fn lemma_mark_upload_at(s: Seq<Notification>, id: u128, st: FileUploadState, i: int)
    requires
        0 <= i < s.len(),
        forall|k: int| 0 <= k < i ==> (#[trigger] s[k]).key() != id,
        s[i].key() == id,
    ensures
        mark_upload(s, id, st) == (match s[i] {
            Notification::FileUpload { id: i0, dir, name, state } => s.update(
                i,
                Notification::FileUpload { id: i0, dir, name, state: st },
            ),
        }),
        find_upload_dir(s, id) == (match s[i] {
            Notification::FileUpload { dir, .. } => Some(dir@),
        }),
    decreases i,
{
    if i == 0 {
        match s[0] {
            Notification::FileUpload { id: i0, dir, name, state } => {
                assert(mark_upload(s, id, st) =~= s.update(
                    0,
                    Notification::FileUpload { id: i0, dir, name, state: st },
                ));
            },
        }
    } else {
        let t = s.skip(1);
        assert forall|k: int| 0 <= k < i - 1 implies (#[trigger] t[k]).key() != id by {
            assert(t[k] == s[k + 1]);
        }
        assert(t[i - 1] == s[i]);
        lemma_mark_upload_at(t, id, st, i - 1);
        match s[i] {
            Notification::FileUpload { id: i0, dir, name, state } => {
                assert(mark_upload(s, id, st) =~= s.update(
                    i,
                    Notification::FileUpload { id: i0, dir, name, state: st },
                ));
            },
        }
    }
}

proof fn lemma_mark_upload_absent(s: Seq<Notification>, id: u128, st: FileUploadState)
    requires
        forall|k: int| 0 <= k < s.len() ==> (#[trigger] s[k]).key() != id,
    ensures
        mark_upload(s, id, st) == s,
        find_upload_dir(s, id) is None,
    decreases s.len(),
{
    if s.len() > 0 {
        let t = s.skip(1);
        assert forall|k: int| 0 <= k < t.len() implies (#[trigger] t[k]).key() != id by {
            assert(t[k] == s[k + 1]);
        }
        lemma_mark_upload_absent(t, id, st);
        assert(mark_upload(s, id, st) =~= s);
    }
}

/// Move the first notification keyed by `id` to the given upload
/// state, returning a copy of its display directory.
fn mark_upload_exec(v: &mut Vec<Notification>, id: u128, st: FileUploadState) -> (r: Option<
    String,
>)
    ensures
        final(v)@ == mark_upload(old(v)@, id, st),
        match r {
            Some(d) => find_upload_dir(old(v)@, id) == Some(d@),
            None => find_upload_dir(old(v)@, id) is None,
        },
{
    let n = v.len();
    let mut i: usize = 0;
    while i < n
        invariant
            n == v@.len(),
            i <= n,
            v@ == old(v)@,
            forall|k: int| 0 <= k < i as int ==> (#[trigger] v@[k]).key() != id,
        decreases n - i,
    {
        let hit = match &v[i] {
            Notification::FileUpload { id: nid, .. } => *nid == id,
        };
        if hit {
            let e = &mut v[i];
            match e {
                Notification::FileUpload { dir, state, .. } => {
                    let d = dir.clone();
                    *state = st;
                    proof {
                        lemma_mark_upload_at(old(v)@, id, st, i as int);
                    }
                    return Some(d);
                },
            }
        }
        i += 1;
    }
    proof {
        lemma_mark_upload_absent(v@, id, st);
    }
    None
}

/// The wire form of a display directory (see [`remove_leading_dot`]).
pub open spec fn wire_dir(d: Seq<char>) -> Seq<char> {
    if d.len() == 1 {
        Seq::empty()
    } else {
        d.skip(2)
    }
}

impl Backend {
    /// Apply one decoded server message: update the panel state and
    /// return the frontend commands and the messages to send back.
    pub fn handle_packet(&mut self, packet: ServerPacket) -> (r: (
        Vec<BackendCommand>,
        Vec<ClientPacket>,
    ))
        requires
            crate::admin_panel::producers_distinct(old(self).log_holder.producers@),
        ensures
            crate::admin_panel::producers_distinct(final(self).log_holder.producers@),
            ({
                let cmds = r.0@;
                let outs = r.1@.map_values(|p: ClientPacket| p@);
                match packet {
                    ServerPacket::FileList { dir, files, folders } => {
                        &&& final(self).file_info_holder.files == files
                        &&& final(self).file_info_holder.folders == folders
                        &&& final(self).file_info_holder.current_dir@ == (if dir@.len() == 0 {
                            "."@
                        } else {
                            "./"@ + dir@
                        })
                        &&& cmds.len() == 1
                        &&& (cmds[0] matches BackendCommand::OpenFileObserve { dir: d } && d@
                            == final(self).file_info_holder.current_dir@)
                        &&& outs.len() == 0
                        &&& final(self).notifications == old(self).notifications
                        &&& final(self).log_holder == old(self).log_holder
                        &&& final(self).patch_note_holder == old(self).patch_note_holder
                    },
                    ServerPacket::Logs(logs) => {
                        &&& final(self).log_holder.server_logs@ == old(
                            self,
                        ).log_holder.server_logs@ + logs@
                        &&& final(self).log_holder.producers@
                            == crate::admin_panel::producers_after(
                            old(self).log_holder.producers@,
                            logs@,
                        )
                        &&& final(self).log_holder.max_log_level
                            == crate::admin_panel::max_level_after(
                            old(self).log_holder.max_log_level,
                            logs@,
                        )
                        &&& cmds.len() == 1 && cmds[0] is OpenLogs
                        &&& outs.len() == 0
                        &&& final(self).notifications == old(self).notifications
                        &&& final(self).patch_note_holder == old(self).patch_note_holder
                        &&& final(self).file_info_holder == old(self).file_info_holder
                    },
                    ServerPacket::FileUploaded { id } => {
                        &&& final(self).notifications@ == mark_upload(
                            old(self).notifications@,
                            id,
                            FileUploadState::Processing,
                        )
                        &&& cmds.len() == 0 && outs.len() == 0
                        &&& final(self).log_holder == old(self).log_holder
                        &&& final(self).patch_note_holder == old(self).patch_note_holder
                        &&& final(self).file_info_holder == old(self).file_info_holder
                    },
                    ServerPacket::FileProceeded { id } => {
                        &&& final(self).notifications@ == mark_upload(
                            old(self).notifications@,
                            id,
                            FileUploadState::Completed,
                        )
                        &&& cmds.len() == 0
                        &&& (match find_upload_dir(old(self).notifications@, id) {
                            Some(d) => if d == old(self).file_info_holder.current_dir@ && d.len()
                                >= 1 {
                                outs =~= seq![ClientPacketView::FileList { dir: wire_dir(d) }]
                            } else {
                                outs.len() == 0
                            },
                            None => outs.len() == 0,
                        })
                        &&& final(self).log_holder == old(self).log_holder
                        &&& final(self).patch_note_holder == old(self).patch_note_holder
                        &&& final(self).file_info_holder == old(self).file_info_holder
                    },
                    ServerPacket::PatchNotes { take, skip, total, patch_notes } => {
                        &&& final(self).patch_note_holder.take == take
                        &&& final(self).patch_note_holder.skip == skip
                        &&& final(self).patch_note_holder.total == total
                        &&& final(self).patch_note_holder.patch_notes == patch_notes
                        &&& cmds.len() == 1 && cmds[0] is OpenPatchNotes
                        &&& outs.len() == 0
                        &&& final(self).notifications == old(self).notifications
                        &&& final(self).log_holder == old(self).log_holder
                        &&& final(self).file_info_holder == old(self).file_info_holder
                    },
                    ServerPacket::OpenPatchNote(note) => {
                        &&& cmds.len() == 1
                        &&& (cmds[0] matches BackendCommand::OpenPatchNote { id: nid, data: d }
                            && nid == Some(note.id) && d == note.data)
                        &&& outs.len() == 0
                        &&& *final(self) == *old(self)
                    },
                }
            }),
    {
        let mut cmds: Vec<BackendCommand> = Vec::new();
        let mut outs: Vec<ClientPacket> = Vec::new();
        match packet {
            ServerPacket::FileList { dir, files, folders } => {
                let d = display_dir(dir);
                cmds.push(BackendCommand::OpenFileObserve { dir: d.clone() });
                self.file_info_holder.set(files, folders, d);
            },
            ServerPacket::Logs(logs) => {
                self.log_holder.add_server(logs);
                cmds.push(BackendCommand::OpenLogs);
            },
            ServerPacket::FileUploaded { id } => {
                mark_upload_exec(&mut self.notifications, id, FileUploadState::Processing);
            },
            ServerPacket::FileProceeded { id } => {
                match mark_upload_exec(&mut self.notifications, id, FileUploadState::Completed) {
                    Some(d) => {
                        if !d.as_str().is_empty() && d == self.file_info_holder.current_dir {
                            outs.push(
                                ClientPacket::FileList { dir: remove_leading_dot(d.as_str()) },
                            );
                            proof {
                                assert(outs@.map_values(|p: ClientPacket| p@) =~= seq![outs@[0]@]);
                            }
                        }
                    },
                    None => {},
                }
            },
            ServerPacket::PatchNotes { take, skip, total, patch_notes } => {
                self.patch_note_holder.take = take;
                self.patch_note_holder.skip = skip;
                self.patch_note_holder.total = total;
                self.patch_note_holder.patch_notes = patch_notes;
                cmds.push(BackendCommand::OpenPatchNotes);
            },
            ServerPacket::OpenPatchNote(note) => {
                cmds.push(BackendCommand::OpenPatchNote { id: Some(note.id), data: note.data });
            },
        }
        proof {
            if outs@.len() == 0 {
                assert(outs@.map_values(|p: ClientPacket| p@) =~= Seq::<ClientPacketView>::empty());
            }
        }
        (cmds, outs)
    }
}

/// The events the frontend may hand the backend: every directory is a
/// display directory (at least `.`), and the dashboard screen is not
/// requested through events.
pub open spec fn event_wf(e: FrontendEvent) -> bool {
    match e {
        FrontendEvent::CreateFolder { dir, name } => dir@.len() >= 1,
        FrontendEvent::RemoveFolder { dir, name } => dir@.len() >= 1,
        FrontendEvent::UploadFiles { dir, files } => dir@.len() >= 1,
        FrontendEvent::RemoveFile { dir, name } => dir@.len() >= 1,
        FrontendEvent::SkipFileHashCheck { dir, name } => dir@.len() >= 1,
        FrontendEvent::RequestOpenScreen(s) => match s {
            Screen::Dashboard => false,
            Screen::Files { dir } => dir@.len() >= 1,
            _ => true,
        },
        FrontendEvent::SavePatchNote { id, data } => true,
        FrontendEvent::DeletePatchNote { id } => true,
    }
}

impl Backend {
    /// Apply one frontend event: update the panel state and return
    /// the frontend commands and the messages to send.  Uploads are
    /// correlated by a fresh identifier, which the embedding
    /// application draws.
    pub fn handle_frontend_event(&mut self, event: FrontendEvent, fresh_id: u128) -> (r: (
        Vec<BackendCommand>,
        Vec<ClientPacket>,
    ))
        requires
            event_wf(event),
        ensures
            ({
                let cmds = r.0@;
                let outs = r.1@.map_values(|p: ClientPacket| p@);
                match event {
                    FrontendEvent::CreateFolder { dir, name } => {
                        &&& outs =~= seq![
                            ClientPacketView::CreateFolder { dir: wire_dir(dir@), name: name@ },
                        ]
                        &&& cmds.len() == 0
                        &&& *final(self) == *old(self)
                    },
                    FrontendEvent::RemoveFolder { dir, name } => {
                        &&& outs =~= seq![
                            ClientPacketView::RemoveFolder { dir: wire_dir(dir@), name: name@ },
                        ]
                        &&& cmds.len() == 0
                        &&& *final(self) == *old(self)
                    },
                    FrontendEvent::RemoveFile { dir, name } => {
                        &&& outs =~= seq![
                            ClientPacketView::RemoveFile { dir: wire_dir(dir@), name: name@ },
                        ]
                        &&& cmds.len() == 0
                        &&& *final(self) == *old(self)
                    },
                    FrontendEvent::SkipFileHashCheck { dir, name } => {
                        &&& outs =~= seq![
                            ClientPacketView::SkipFileHashCheck {
                                dir: wire_dir(dir@),
                                name: name@,
                            },
                        ]
                        &&& cmds.len() == 0
                        &&& *final(self) == *old(self)
                    },
                    FrontendEvent::UploadFiles { dir, files } => {
                        &&& outs.len() == files@.len()
                        &&& (forall|k: int| #![trigger files@[k]]
                            0 <= k < files@.len() ==> outs[k]
                                == (ClientPacketView::AddFile {
                                id: fresh_id,
                                dir: wire_dir(dir@),
                                name: files@[k].0@,
                                file: files@[k].1@,
                            }))
                        &&& cmds.len() == 0
                        &&& final(self).notifications@.len() == old(self).notifications@.len()
                            + files@.len()
                        &&& final(self).notifications@.take(old(self).notifications@.len() as int)
                            == old(self).notifications@
                        &&& (forall|k: int|
                            0 <= k < files@.len() ==> #[trigger] final(self).notifications@[old(
                                self,
                            ).notifications@.len() + k] == (Notification::FileUpload {
                                id: fresh_id,
                                dir,
                                name: files@[k].0,
                                state: FileUploadState::Uploading,
                            }))
                        &&& final(self).log_holder == old(self).log_holder
                        &&& final(self).patch_note_holder == old(self).patch_note_holder
                        &&& final(self).file_info_holder == old(self).file_info_holder
                    },
                    FrontendEvent::RequestOpenScreen(s) => {
                        &&& *final(self) == *old(self)
                        &&& (match s {
                            Screen::Dashboard => false,
                            Screen::PatchNotes => outs =~= seq![
                                ClientPacketView::PatchNotes { take: 10, skip: 0 },
                            ] && cmds.len() == 0,
                            Screen::EditPatchNote { id } => (match id {
                                Some(i) => outs =~= seq![
                                    ClientPacketView::RequestEditPatchNote { id: i },
                                ] && cmds.len() == 0,
                                None => outs.len() == 0 && cmds.len() == 1 && (cmds[0] matches
                                    BackendCommand::OpenPatchNote { id: nid, data: d } && nid
                                    is None && d@
                                    == crate::packet_handler::patch_note_template()),
                            }),
                            Screen::Files { dir } => outs =~= seq![
                                ClientPacketView::FileList { dir: wire_dir(dir@) },
                            ] && cmds.len() == 0,
                            Screen::Logs => outs =~= seq![ClientPacketView::Logs] && cmds.len()
                                == 0,
                        })
                    },
                    FrontendEvent::SavePatchNote { id, data } => {
                        &&& *final(self) == *old(self)
                        &&& cmds.len() == 0
                        &&& (match id {
                            Some(i) => outs =~= seq![
                                ClientPacketView::SavePatchNote { id: i, data: data@ },
                            ],
                            None => outs =~= seq![
                                ClientPacketView::AddPatchNote { data: data@ },
                            ],
                        })
                    },
                    FrontendEvent::DeletePatchNote { id } => {
                        &&& *final(self) == *old(self)
                        &&& cmds.len() == 0
                        &&& outs =~= seq![ClientPacketView::DeletePatchNote { id }]
                    },
                }
            }),
    {
        let mut cmds: Vec<BackendCommand> = Vec::new();
        let mut outs: Vec<ClientPacket> = Vec::new();
        match event {
            FrontendEvent::CreateFolder { dir, name } => {
                outs.push(
                    ClientPacket::CreateFolder { dir: remove_leading_dot(dir.as_str()), name },
                );
                proof {
                    assert(outs@.map_values(|p: ClientPacket| p@) =~= seq![outs@[0]@]);
                }
            },
            FrontendEvent::RemoveFolder { dir, name } => {
                outs.push(
                    ClientPacket::RemoveFolder { dir: remove_leading_dot(dir.as_str()), name },
                );
                proof {
                    assert(outs@.map_values(|p: ClientPacket| p@) =~= seq![outs@[0]@]);
                }
            },
            FrontendEvent::RemoveFile { dir, name } => {
                outs.push(ClientPacket::RemoveFile { dir: remove_leading_dot(dir.as_str()), name });
                proof {
                    assert(outs@.map_values(|p: ClientPacket| p@) =~= seq![outs@[0]@]);
                }
            },
            FrontendEvent::SkipFileHashCheck { dir, name } => {
                outs.push(
                    ClientPacket::SkipFileHashCheck { dir: remove_leading_dot(dir.as_str()), name },
                );
                proof {
                    assert(outs@.map_values(|p: ClientPacket| p@) =~= seq![outs@[0]@]);
                }
            },
            FrontendEvent::UploadFiles { dir, files } => {
                let ghost files0 = files@;
                let ghost n0 = self.notifications@.len() as int;
                let wire = remove_leading_dot(dir.as_str());
                let mut rest = files;
                let ghost mut done: int = 0;
                while rest.len() > 0
                    invariant
                        0 <= done,
                        done + rest@.len() == files0.len(),
                        rest@ == files0.skip(done),
                        n0 == old(self).notifications@.len() as int,
                        wire@ == wire_dir(dir@),
                        self.notifications@.len() == n0 + done,
                        self.notifications@.take(n0) == old(self).notifications@,
                        forall|k: int|
                            0 <= k < done ==> #[trigger] self.notifications@[n0 + k]
                                == (Notification::FileUpload {
                                id: fresh_id,
                                dir: dir,
                                name: files0[k].0,
                                state: FileUploadState::Uploading,
                            }),
                        outs@.len() == done,
                        forall|k: int|
                            0 <= k < done ==> #[trigger] outs@[k]@ == (ClientPacketView::AddFile {
                                id: fresh_id,
                                dir: wire_dir(dir@),
                                name: files0[k].0@,
                                file: files0[k].1@,
                            }),
                        cmds@.len() == 0,
                        self.log_holder == old(self).log_holder,
                        self.patch_note_holder == old(self).patch_note_holder,
                        self.file_info_holder == old(self).file_info_holder,
                    decreases rest@.len(),
                {
                    let (fname, fbytes) = rest.remove(0);
                    proof {
                        assert((fname, fbytes) == files0[done]);
                        assert(rest@ =~= files0.skip(done + 1));
                    }
                    self.notifications.push(
                        Notification::FileUpload {
                            id: fresh_id,
                            dir: dir.clone(),
                            name: fname.clone(),
                            state: FileUploadState::Uploading,
                        },
                    );
                    outs.push(
                        ClientPacket::AddFile {
                            id: fresh_id,
                            dir: wire.clone(),
                            name: fname,
                            file: fbytes,
                        },
                    );
                    proof {
                        assert(self.notifications@.take(n0) =~= old(self).notifications@);
                        done = done + 1;
                    }
                }
                proof {
                    assert forall|k: int| #![trigger files0[k]] 0 <= k < files0.len() implies outs@.map_values(
                        |p: ClientPacket| p@,
                    )[k] == (ClientPacketView::AddFile {
                        id: fresh_id,
                        dir: wire_dir(dir@),
                        name: files0[k].0@,
                        file: files0[k].1@,
                    }) by {
                        assert(outs@.map_values(|p: ClientPacket| p@)[k] == outs@[k]@);
                    }
                }
            },
            FrontendEvent::RequestOpenScreen(s) => {
                match s {
                    Screen::Dashboard => {
                        // `event_wf` rules this request out: the
                        // dashboard is local and asks the server for
                        // nothing.
                        proof {
                            assert(false);
                        }
                    },
                    Screen::PatchNotes => {
                        outs.push(ClientPacket::PatchNotes { take: 10, skip: 0 });
                        proof {
                            assert(outs@.map_values(|p: ClientPacket| p@) =~= seq![outs@[0]@]);
                        }
                    },
                    Screen::EditPatchNote { id } => {
                        match id {
                            Some(i) => {
                                outs.push(ClientPacket::RequestEditPatchNote { id: i });
                                proof {
                                    assert(outs@.map_values(|p: ClientPacket| p@)
                                        =~= seq![outs@[0]@]);
                                }
                            },
                            None => {
                                cmds.push(
                                    BackendCommand::OpenPatchNote {
                                        id: None,
                                        data: crate::packet_handler::patch_note_template_exec(),
                                    },
                                );
                            },
                        }
                    },
                    Screen::Files { dir } => {
                        outs.push(ClientPacket::FileList { dir: remove_leading_dot(dir.as_str()) });
                        proof {
                            assert(outs@.map_values(|p: ClientPacket| p@) =~= seq![outs@[0]@]);
                        }
                    },
                    Screen::Logs => {
                        outs.push(ClientPacket::Logs);
                        proof {
                            assert(outs@.map_values(|p: ClientPacket| p@) =~= seq![outs@[0]@]);
                        }
                    },
                }
            },
            FrontendEvent::SavePatchNote { id, data } => {
                match id {
                    Some(i) => {
                        outs.push(ClientPacket::SavePatchNote { id: i, data });
                    },
                    None => {
                        outs.push(ClientPacket::AddPatchNote { data });
                    },
                }
                proof {
                    assert(outs@.map_values(|p: ClientPacket| p@) =~= seq![outs@[0]@]);
                }
            },
            FrontendEvent::DeletePatchNote { id } => {
                outs.push(ClientPacket::DeletePatchNote { id });
                proof {
                    assert(outs@.map_values(|p: ClientPacket| p@) =~= seq![outs@[0]@]);
                }
            },
        }
        proof {
            if outs@.len() == 0 {
                assert(outs@.map_values(|p: ClientPacket| p@) =~= Seq::<ClientPacketView>::empty());
            }
        }
        (cmds, outs)
    }
}

} // verus!
