//! The packet handler: maps each inbound message to store calls and
//! builds the outbound messages.
//!
//! The handler is a pure decision function over the store and the
//! patch notes; the embedding application decodes frames, hands them
//! here, sends the returned responses in order, and persists the
//! snapshot (and, for uploads, the returned compressed artifact).

use vstd::prelude::*;
use vstd::string::StringExecFns;

use crate::admin_panel::ClientPacket;
use crate::admin_panel::ClientPacketView;
use crate::admin_panel::FileInfo;
use crate::admin_panel::FileInfoView;
use crate::admin_panel::FolderInfo;
use crate::admin_panel::FolderInfoView;
use crate::admin_panel::Log;
use crate::admin_panel::LogLevel;
use crate::admin_panel::LogView;
use crate::admin_panel::PatchNoteView;
use crate::admin_panel::PatchNote;
use crate::admin_panel::ServerPacket;
use crate::admin_panel::ServerPacketView;
use crate::db::PatchNoteHolder;
use crate::file::lemma_files_view_contains;
use crate::file::lemma_files_view_get;
use crate::file::lemma_folder_wf_child;
use crate::file::lemma_folders_view_contains;
use crate::file::lemma_folders_view_get;
use crate::file::folder_view;
use crate::file::folder_wf;
use crate::file::lookup_folder_model;
use crate::file::FileView;
use crate::file::FolderView;
use crate::file::agg_folder;
use crate::file::aggregates_consistent;
use crate::file::create_folder_model;
use crate::file::lookup_file_model;
use crate::file::subtree_count;
use crate::file::subtree_size;
use crate::file::toggle_file_model;
use crate::file::toggle_folder_model;
use crate::file::toggle_hash_check_model;
use crate::file::upsert_file_model;
use crate::file::ServerFolderInfo;
use crate::file_updater::FileHolder;
use crate::paths::path_segs;
use crate::pipeline::deflate_of;
use crate::pipeline::hex16;
use crate::pipeline::inflate_of;
use crate::pipeline::sea_hash;

verus! {

/// A listing row for a child folder carries the node's memoized
/// aggregates, timestamps and tombstone; the writer field is unused.
pub open spec fn folder_row_ok(g: FolderView, row: FolderInfoView) -> bool {
    &&& row.size == g.size
    &&& row.created == g.created_at
    &&& row.modified_at == g.updated_at
    &&& row.updated_by == 0
    &&& row.deleted == g.deleted
}

/// A listing row for a file entry.
pub open spec fn file_row_ok(e: FileView, row: FileInfoView) -> bool {
    &&& row.size == e.size
    &&& row.created == e.created_at
    &&& row.modified_at == e.updated_at
    &&& row.updated_by == 0
    &&& row.skip_hash_check == e.skip_hash_check
    &&& row.deleted == e.deleted
}

/// The folder rows list exactly the child folders: every row names a
/// child and carries its fields, every child is named once.
pub open spec fn folders_listing_ok(
    m: Map<Seq<char>, FolderView>,
    l: Seq<FolderInfoView>,
) -> bool {
    &&& forall|i: int|
        0 <= i < l.len() ==> m.contains_key(#[trigger] l[i].name) && folder_row_ok(
            m[l[i].name],
            l[i],
        )
    &&& forall|k: Seq<char>|
        #[trigger] m.contains_key(k) ==> exists|i: int| 0 <= i < l.len() && l[i].name == k
    &&& forall|i: int, j: int| 0 <= i < j < l.len() ==> l[i].name != l[j].name
}

/// The file rows list exactly the file entries.
pub open spec fn files_listing_ok(m: Map<Seq<char>, FileView>, l: Seq<FileInfoView>) -> bool {
    &&& forall|i: int|
        0 <= i < l.len() ==> m.contains_key(#[trigger] l[i].name) && file_row_ok(
            m[l[i].name],
            l[i],
        )
    &&& forall|k: Seq<char>|
        #[trigger] m.contains_key(k) ==> exists|i: int| 0 <= i < l.len() && l[i].name == k
    &&& forall|i: int, j: int| 0 <= i < j < l.len() ==> l[i].name != l[j].name
}

/// Either one refreshed-listing response for a known `dir`, or no
/// response at all for an unknown one (the caller's view is left
/// unchanged rather than sent an error).
pub open spec fn listing_or_silence(st: FolderView, dir: Seq<char>, rs: Seq<ServerPacketView>) -> bool {
    match lookup_folder_model(st, path_segs(dir)) {
        Some(_) => rs.len() == 1 && listing_response_ok(st, dir, rs[0]),
        None => rs.len() == 0,
    }
}

/// A refreshed-listing response for `dir` against a store state.
pub open spec fn listing_response_ok(st: FolderView, dir: Seq<char>, resp: ServerPacketView) -> bool {
    match resp {
        ServerPacketView::FileList { dir: d, files, folders } => {
            &&& d == dir
            &&& (match lookup_folder_model(st, path_segs(dir)) {
                Some(g) => folders_listing_ok(g.folders, folders) && files_listing_ok(
                    g.files,
                    files,
                ),
                None => false,
            })
        },
        _ => false,
    }
}

impl FileHolder {
    /// The directory-listing projection: the folder's children as
    /// listing rows, read lock only; `None` when the path is unknown.
    pub fn get_folder_and_file_infos(&self, dir: &str) -> (r: Option<
        (Vec<FolderInfo>, Vec<FileInfo>),
    >)
        requires
            self.wf(),
        ensures
            match r {
                Some(lists) => (match lookup_folder_model(self@, path_segs(dir@)) {
                    Some(g) => folders_listing_ok(
                        g.folders,
                        lists.0@.map_values(|x: FolderInfo| x@),
                    ) && files_listing_ok(g.files, lists.1@.map_values(|x: FileInfo| x@)),
                    None => false,
                }),
                None => lookup_folder_model(self@, path_segs(dir@)) is None,
            },
    {
        let g = match self.folder_info(dir) {
            Some(g) => g,
            None => {
                return None;
            },
        };
        let mut folders: Vec<FolderInfo> = Vec::new();
        let mut j: usize = 0;
        let nfo = g.folders.len();
        while j < nfo
            invariant
                folder_wf(*g),
                nfo == g.folders@.len(),
                j <= nfo,
                folders@.len() == j,
                forall|i: int|
                    0 <= i < j as int ==> (#[trigger] folders@[i])@.name == g.folders@[i].0@
                        && folder_row_ok(folder_view(g.folders@[i].1), folders@[i]@),
            decreases nfo - j,
        {
            let e = &g.folders[j];
            folders.push(
                FolderInfo {
                    name: e.0.clone(),
                    size: e.1.size,
                    created: e.1.created_at,
                    modified_at: e.1.updated_at,
                    updated_by: 0,
                    deleted: e.1.deleted,
                },
            );
            j += 1;
        }
        let mut files: Vec<FileInfo> = Vec::new();
        let mut k: usize = 0;
        let nfi = g.files.len();
        while k < nfi
            invariant
                folder_wf(*g),
                nfi == g.files@.len(),
                k <= nfi,
                files@.len() == k,
                forall|i: int|
                    0 <= i < k as int ==> (#[trigger] files@[i])@.name == g.files@[i].0@
                        && file_row_ok(g.files@[i].1@, files@[i]@),
            decreases nfi - k,
        {
            let e = &g.files[k];
            files.push(
                FileInfo {
                    name: e.0.clone(),
                    size: e.1.size,
                    created: e.1.created_at,
                    modified_at: e.1.updated_at,
                    updated_by: 0,
                    skip_hash_check: e.1.skip_hash_check,
                    deleted: e.1.deleted,
                },
            );
            k += 1;
        }
        proof {
            let gv = folder_view(*g);
            let fol = folders@.map_values(|x: FolderInfo| x@);
            let fil = files@.map_values(|x: FileInfo| x@);
            assert forall|i: int| 0 <= i < fol.len() implies gv.folders.contains_key(
                #[trigger] fol[i].name,
            ) && folder_row_ok(gv.folders[fol[i].name], fol[i]) by {
                lemma_folders_view_get(g.folders@, i);
            }
            assert forall|key: Seq<char>| #[trigger] gv.folders.contains_key(key) implies exists|i: int|
                0 <= i < fol.len() && fol[i].name == key by {
                lemma_folders_view_contains(g.folders@, key);
                let i = choose|i: int| 0 <= i < g.folders@.len() && g.folders@[i].0@ == key;
                assert(fol[i].name == key);
            }
            assert forall|i: int, j2: int| 0 <= i < j2 < fol.len() implies fol[i].name
                != fol[j2].name by {
                assert(g.folders@[i].0@ != g.folders@[j2].0@);
            }
            assert forall|i: int| 0 <= i < fil.len() implies gv.files.contains_key(
                #[trigger] fil[i].name,
            ) && file_row_ok(gv.files[fil[i].name], fil[i]) by {
                lemma_files_view_get(g.files@, i);
            }
            assert forall|key: Seq<char>| #[trigger] gv.files.contains_key(key) implies exists|i: int|
                0 <= i < fil.len() && fil[i].name == key by {
                lemma_files_view_contains(g.files@, key);
                let i = choose|i: int| 0 <= i < g.files@.len() && g.files@[i].0@ == key;
                assert(fil[i].name == key);
            }
            assert forall|i: int, j2: int| 0 <= i < j2 < fil.len() implies fil[i].name
                != fil[j2].name by {
                assert(g.files@[i].0@ != g.files@[j2].0@);
            }
        }
        Some((folders, files))
    }

    /// Responses for an operation on `dir`: the refreshed listing, or
    /// nothing when the path is unknown.
    fn listing_responses(&self, dir: String) -> (r: Vec<ServerPacket>)
        requires
            self.wf(),
        ensures
            listing_or_silence(self@, dir@, r@.map_values(|p: ServerPacket| p@)),
    {
        let ghost dv = dir@;
        let mut r: Vec<ServerPacket> = Vec::new();
        match self.listing_response(dir) {
            Some(p) => {
                r.push(p);
                proof {
                    assert(r@.map_values(|p: ServerPacket| p@) =~= seq![r@[0]@]);
                }
            },
            None => {
                proof {
                    assert(r@.map_values(|p: ServerPacket| p@) =~= Seq::<ServerPacketView>::empty());
                }
            },
        }
        r
    }

    /// What holds of the store after an upload of `file` to
    /// `dir`/`name` at time `now`: the entry landed with the payload's
    /// fingerprint and size (its creation stamp preserved, its
    /// tombstone cleared), and the whole tree is the size-aggregation
    /// of the upserted tree.
    pub open spec fn upload_post(
        st0: FolderView,
        h1: FileHolder,
        dir: Seq<char>,
        name: Seq<char>,
        file: Seq<u8>,
        now: i64,
    ) -> bool {
        let prev = lookup_file_model(st0, path_segs(dir), name);
        let fv = FileView {
            hash: hex16(sea_hash(file)),
            size: file.len() as u64,
            created_at: if prev is Some {
                prev->Some_0.created_at
            } else {
                now
            },
            updated_at: now,
            skip_hash_check: if prev is Some {
                prev->Some_0.skip_hash_check
            } else {
                false
            },
            deleted: false,
        };
        &&& lookup_file_model(h1@, path_segs(dir), name) == Some(fv)
        &&& (exists|mid: ServerFolderInfo|
            {
                &&& #[trigger] folder_view(mid) == upsert_file_model(
                    st0,
                    path_segs(dir),
                    name,
                    fv,
                )
                &&& folder_wf(mid)
                &&& h1@ == agg_folder(mid)
                &&& (subtree_size(mid) <= u64::MAX && subtree_count(mid) <= u32::MAX
                    ==> aggregates_consistent(h1.root_folder))
            })
    }

    /// The refreshed-listing response for `dir`, or `None` when the
    /// path is unknown (in which case no response is sent at all).
    fn listing_response(&self, dir: String) -> (r: Option<ServerPacket>)
        requires
            self.wf(),
        ensures
            match r {
                Some(p) => lookup_folder_model(self@, path_segs(dir@)) is Some
                    && listing_response_ok(self@, dir@, p@),
                None => lookup_folder_model(self@, path_segs(dir@)) is None,
            },
    {
        match self.get_folder_and_file_infos(dir.as_str()) {
            Some((folders, files)) => Some(ServerPacket::FileList { dir, files, folders }),
            None => None,
        }
    }
}


/// The text handed out when a patch note is opened for editing
/// before any content exists: a small markup cheat sheet.
pub open spec fn patch_note_template() -> Seq<char> {
    "\n# [MarkupLanguage](https://docs.github.com/en/get-started/writing-on-github/getting-started-with-writing-and-formatting-on-github/basic-writing-and-formatting-syntax)\n----------------\n\n# At a glance\n- inline text:\n  - normal, `code`, **strong**, ~~strikethrough~~, *italics*, ***strong italics***\n  - `\\` escapes the next character\n  - [hyperlink](https://github.com/emilk/egui)\n  - Embedded URL: <https://github.com/emilk/egui>\n- `# ` header\n- `---` separator (horizontal line)\n- `> ` quote\n- `- ` bullet list\n- `1. ` numbered list\n- \\`\\`\\` code fence\n"@
}

pub fn patch_note_template_exec() -> (r: String)
    ensures
        r@ == patch_note_template(),
{
    String::from_str(
        "\n# [MarkupLanguage](https://docs.github.com/en/get-started/writing-on-github/getting-started-with-writing-and-formatting-on-github/basic-writing-and-formatting-syntax)\n----------------\n\n# At a glance\n- inline text:\n  - normal, `code`, **strong**, ~~strikethrough~~, *italics*, ***strong italics***\n  - `\\` escapes the next character\n  - [hyperlink](https://github.com/emilk/egui)\n  - Embedded URL: <https://github.com/emilk/egui>\n- `# ` header\n- `---` separator (horizontal line)\n- `> ` quote\n- `- ` bullet list\n- `1. ` numbered list\n- \\`\\`\\` code fence\n",
    )
}

/// What the handler guarantees, per inbound message: the mapping of
/// the table in the component design -- each message drives exactly
/// its store operation and yields its responses, and nothing else
/// changes.
pub open spec fn handle_post(
    p: ClientPacketView,
    st0: FolderView,
    h1: FileHolder,
    n0: PatchNoteHolder,
    n1: PatchNoteHolder,
    rs: Seq<ServerPacketView>,
    art: Option<Vec<u8>>,
    now: i64,
) -> bool {
    match p {
        ClientPacketView::FileList { dir } => {
            &&& h1@ == st0
            &&& n1 == n0
            &&& art is None
            &&& listing_or_silence(h1@, dir, rs)
        },
        ClientPacketView::CreateFolder { dir, name } => {
            &&& h1@ == create_folder_model(st0, path_segs(dir), name)
            &&& n1 == n0
            &&& art is None
            &&& listing_or_silence(h1@, dir, rs)
        },
        ClientPacketView::RemoveFile { dir, name } => {
            &&& h1@ == toggle_file_model(st0, path_segs(dir), name)
            &&& n1 == n0
            &&& art is None
            &&& listing_or_silence(h1@, dir, rs)
        },
        ClientPacketView::RemoveFolder { dir, name } => {
            &&& h1@ == toggle_folder_model(
                st0,
                path_segs(if dir.len() == 0 { name } else { dir + seq!['/'] + name }),
            )
            &&& n1 == n0
            &&& art is None
            &&& listing_or_silence(h1@, dir, rs)
        },
        ClientPacketView::SkipFileHashCheck { dir, name } => {
            &&& h1@ == toggle_hash_check_model(st0, path_segs(dir), name)
            &&& n1 == n0
            &&& art is None
            &&& listing_or_silence(h1@, dir, rs)
        },
        ClientPacketView::AddFile { id, dir, name, file } => {
            &&& FileHolder::upload_post(st0, h1, dir, name, file, now)
            &&& n1 == n0
            &&& (art matches Some(c) && c@ == deflate_of(file) && inflate_of(c@) == Some(file))
            &&& rs == seq![
                ServerPacketView::FileUploaded { id },
                ServerPacketView::FileProceeded { id },
            ]
        },
        ClientPacketView::PatchNotes { take, skip } => {
            &&& h1@ == st0
            &&& n1 == n0
            &&& art is None
            &&& rs == seq![
                ServerPacketView::PatchNotes {
                    take: n0.items@.len() as u32,
                    skip: 0,
                    total: n0.items@.len() as u32,
                    patch_notes: n0.items@.map_values(|x: PatchNote| x@),
                },
            ]
        },
        ClientPacketView::SavePatchNote { id, data } => {
            &&& h1@ == st0
            &&& art is None
            &&& rs.len() == 0
            &&& n1.next_id == n0.next_id
            &&& n1.items@.len() == n0.items@.len()
            &&& (forall|i: int|
                0 <= i < n0.items@.len() ==> (#[trigger] n1.items@[i])@ == (if n0.items@[i].id
                    == id {
                    PatchNoteView { id, data }
                } else {
                    n0.items@[i]@
                }))
        },
        ClientPacketView::AddPatchNote { data } => {
            &&& h1@ == st0
            &&& art is None
            &&& (if n0.next_id < u32::MAX {
                &&& n1.next_id == n0.next_id + 1
                &&& n1.items@.map_values(|x: PatchNote| x@) == n0.items@.map_values(
                    |x: PatchNote| x@,
                ).push(PatchNoteView { id: n0.next_id, data })
                &&& rs == seq![
                    ServerPacketView::OpenPatchNote(PatchNoteView { id: n0.next_id, data }),
                ]
            } else {
                &&& n1 == n0
                &&& rs.len() == 0
            })
        },
        ClientPacketView::DeletePatchNote { id } => {
            &&& h1@ == st0
            &&& n1 == n0
            &&& art is None
            &&& rs.len() == 0
        },
        ClientPacketView::RequestEditPatchNote { id } => {
            &&& h1@ == st0
            &&& n1 == n0
            &&& art is None
            &&& rs == seq![
                ServerPacketView::OpenPatchNote(
                    PatchNoteView { id, data: patch_note_template() },
                ),
            ]
        },
        ClientPacketView::Logs => {
            &&& h1@ == st0
            &&& n1 == n0
            &&& art is None
            &&& rs == seq![
                ServerPacketView::Logs(
                    seq![
                        LogView {
                            level: LogLevel::Info,
                            producer: "Monitor"@,
                            log: "bla bla"@,
                            time: now,
                        },
                    ],
                ),
            ]
        },
    }
}

impl ClientPacket {
    /// Handle one inbound message against the store and the patch
    /// notes; returns the outbound messages, in sending order, and
    /// for an upload the compressed artifact the embedding
    /// application must persist.  The two upload responses bracket
    /// the processing: `FileUploaded` acknowledges receipt,
    /// `FileProceeded` reports durable processing.
    pub fn handle(self, holder: &mut FileHolder, notes: &mut PatchNoteHolder, now: i64) -> (r: (
        Vec<ServerPacket>,
        Option<Vec<u8>>,
    ))
        requires
            old(holder).wf(),
            old(notes).wf(),
        ensures
            final(holder).wf(),
            final(notes).wf(),
            handle_post(
                self@,
                old(holder)@,
                *final(holder),
                *old(notes),
                *final(notes),
                r.0@.map_values(|p: ServerPacket| p@),
                r.1,
                now,
            ),
    {
        match self {
            ClientPacket::FileList { dir } => {
                let rs = holder.listing_responses(dir);
                (rs, None)
            },
            ClientPacket::CreateFolder { dir, name } => {
                holder.create_folder(dir.as_str(), name.as_str());
                let rs = holder.listing_responses(dir);
                (rs, None)
            },
            ClientPacket::RemoveFile { dir, name } => {
                holder.delete_file(dir.as_str(), name.as_str());
                let rs = holder.listing_responses(dir);
                (rs, None)
            },
            ClientPacket::RemoveFolder { dir, name } => {
                let full = if dir.as_str().is_empty() {
                    name
                } else {
                    dir.clone().concat("/").concat(name.as_str())
                };
                proof {
                    reveal_strlit("/");
                    if dir@.len() != 0 {
                        assert(full@ =~= dir@ + seq!['/'] + name@);
                    }
                }
                holder.delete_folder(full.as_str());
                let rs = holder.listing_responses(dir);
                (rs, None)
            },
            ClientPacket::SkipFileHashCheck { dir, name } => {
                holder.toggle_hash_check(dir.as_str(), name.as_str());
                let rs = holder.listing_responses(dir);
                (rs, None)
            },
            ClientPacket::AddFile { id, dir, name, file } => {
                let compressed = holder.add_file(dir.as_str(), name.as_str(), file.as_slice(), now);
                let mut rs: Vec<ServerPacket> = Vec::new();
                rs.push(ServerPacket::FileUploaded { id });
                rs.push(ServerPacket::FileProceeded { id });
                proof {
                    assert(rs@.map_values(|p: ServerPacket| p@) =~= seq![
                        ServerPacketView::FileUploaded { id: id },
                        ServerPacketView::FileProceeded { id: id },
                    ]);
                }
                (rs, Some(compressed))
            },
            ClientPacket::PatchNotes { take, skip } => {
                proof {
                    notes.lemma_count_bound();
                }
                let items = notes.patch_notes();
                let n = items.len() as u32;
                let mut rs: Vec<ServerPacket> = Vec::new();
                rs.push(ServerPacket::PatchNotes { take: n, skip: 0, total: n, patch_notes: items });
                proof {
                    assert(rs@.map_values(|p: ServerPacket| p@) =~= seq![rs@[0]@]);
                }
                (rs, None)
            },
            ClientPacket::SavePatchNote { id, data } => {
                notes.update_patch_note(id, data);
                let rs: Vec<ServerPacket> = Vec::new();
                proof {
                    assert(rs@.map_values(|p: ServerPacket| p@)
                        =~= Seq::<ServerPacketView>::empty());
                }
                (rs, None)
            },
            ClientPacket::AddPatchNote { data } => {
                let mut rs: Vec<ServerPacket> = Vec::new();
                match notes.add(data) {
                    Some(note) => {
                        rs.push(ServerPacket::OpenPatchNote(note));
                        proof {
                            assert(notes.items@.map_values(|x: PatchNote| x@) =~= old(
                                notes,
                            ).items@.map_values(|x: PatchNote| x@).push(rs@[0]@->OpenPatchNote_0));
                            assert(rs@.map_values(|p: ServerPacket| p@) =~= seq![rs@[0]@]);
                        }
                    },
                    None => {
                        proof {
                            assert(rs@.map_values(|p: ServerPacket| p@)
                                =~= Seq::<ServerPacketView>::empty());
                        }
                    },
                }
                (rs, None)
            },
            ClientPacket::DeletePatchNote { id } => {
                let rs: Vec<ServerPacket> = Vec::new();
                proof {
                    assert(rs@.map_values(|p: ServerPacket| p@)
                        =~= Seq::<ServerPacketView>::empty());
                }
                (rs, None)
            },
            ClientPacket::RequestEditPatchNote { id } => {
                let mut rs: Vec<ServerPacket> = Vec::new();
                rs.push(
                    ServerPacket::OpenPatchNote(
                        PatchNote { id, data: patch_note_template_exec() },
                    ),
                );
                proof {
                    assert(rs@.map_values(|p: ServerPacket| p@) =~= seq![rs@[0]@]);
                }
                (rs, None)
            },
            ClientPacket::Logs => {
                let mut logs: Vec<Log> = Vec::new();
                logs.push(
                    Log {
                        level: LogLevel::Info,
                        producer: String::from_str("Monitor"),
                        log: String::from_str("bla bla"),
                        time: now,
                    },
                );
                let mut rs: Vec<ServerPacket> = Vec::new();
                rs.push(ServerPacket::Logs(logs));
                proof {
                    assert(rs@.map_values(|p: ServerPacket| p@) =~= seq![rs@[0]@]);
                    assert(rs@[0]@->Logs_0 =~= seq![
                        LogView {
                            level: LogLevel::Info,
                            producer: "Monitor"@,
                            log: "bla bla"@,
                            time: now,
                        },
                    ]);
                }
                (rs, None)
            },
        }
    }
}

} // verus!
