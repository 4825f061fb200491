//! The store around the tree: path-addressed lookups and mutations.
//!
//! [`FileHolder`] owns one tree root.  Every operation takes the path
//! as a `/`-delimited string, resolves it to segments, and relates its
//! effect to the model transformers of the tree module.  The embedding
//! application serializes writers (one writer at a time owns `&mut`),
//! persists the snapshot after each mutation, and performs all disk
//! I/O; this layer never fails on its own and reports absence through
//! `Option` and `bool` results.

use vstd::prelude::*;
use vstd::string::StrSliceExecFns;
use vstd::string::StringExecFns;

use crate::file::agg_folder;
use crate::file::aggregates_consistent;
use crate::file::default_file_view;
use crate::file::empty_folder_view;
use crate::file::files_keys_distinct;
use crate::file::files_view;
use crate::file::folder_view;
use crate::file::folder_wf;
use crate::file::folders_all_wf;
use crate::file::folders_keys_distinct;
use crate::file::folders_view;
use crate::file::lemma_folders_all_wf_push;
use crate::file::lemma_folders_all_wf_update;
use crate::file::create_folder_model;
use crate::file::lemma_files_view_contains;
use crate::file::lemma_files_view_get;
use crate::file::lemma_files_view_push;
use crate::file::lemma_files_view_update;
use crate::file::lemma_folder_wf_child;
use crate::file::lemma_folders_all_wf;
use crate::file::lemma_folders_view_contains;
use crate::file::lemma_folders_view_get;
use crate::file::lemma_folders_view_push;
use crate::file::lemma_folders_view_update;
use crate::file::lemma_lookup_file_agg;
use crate::file::lemma_lookup_upsert_file;
use crate::file::lookup_file_model;
use crate::file::lookup_folder_model;
use crate::file::set_folder_model;
use crate::file::subtree_count;
use crate::file::subtree_size;
use crate::file::toggle_file_model;
use crate::file::toggle_folder_model;
use crate::file::toggle_hash_check_model;
use crate::file::upsert_file_model;
use crate::file::FileView;
use crate::file::FolderView;
use crate::file::ServerFileInfo;
use crate::file::ServerFolderInfo;
use crate::paths::path_segs;
use crate::paths::split_path;
use crate::pipeline::deflate_of;
use crate::pipeline::compress_in_mem;
use crate::pipeline::hash_of;
use crate::pipeline::hex16;
use crate::pipeline::inflate_of;
use crate::pipeline::sea_hash;

verus! {

/// The character-sequence views of a vector of path segments.
pub open spec fn seg_views(s: Seq<String>) -> Seq<Seq<char>> {
    s.map_values(|x: String| x@)
}

/// The store: one tree root.
pub struct FileHolder {
    pub root_folder: ServerFolderInfo,
}

impl View for FileHolder {
    type V = FolderView;

    open spec fn view(&self) -> FolderView {
        folder_view(self.root_folder)
    }
}

impl ServerFolderInfo {
    /// Index of the child folder with the given name, scanning the
    /// keyed vector.
    fn find_folder_idx(&self, name: &String) -> (r: Option<usize>)
        ensures
            match r {
                Some(j) => j < self.folders@.len() && self.folders@[j as int].0@ == name@,
                None => forall|i: int|
                    0 <= i < self.folders@.len() ==> self.folders@[i].0@ != name@,
            },
    {
        let mut j: usize = 0;
        while j < self.folders.len()
            invariant
                j <= self.folders@.len(),
                forall|i: int| 0 <= i < j as int ==> self.folders@[i].0@ != name@,
            decreases self.folders@.len() - j,
        {
            if self.folders[j].0 == *name {
                return Some(j);
            }
            j += 1;
        }
        None
    }

    /// Index of the file entry with the given name.
    fn find_file_idx(&self, name: &String) -> (r: Option<usize>)
        ensures
            match r {
                Some(j) => j < self.files@.len() && self.files@[j as int].0@ == name@,
                None => forall|i: int|
                    0 <= i < self.files@.len() ==> self.files@[i].0@ != name@,
            },
    {
        let mut j: usize = 0;
        while j < self.files.len()
            invariant
                j <= self.files@.len(),
                forall|i: int| 0 <= i < j as int ==> self.files@[i].0@ != name@,
            decreases self.files@.len() - j,
        {
            if self.files[j].0 == *name {
                return Some(j);
            }
            j += 1;
        }
        None
    }
}

/// Walk a segment suffix down the tree, read-only.
fn lookup_node<'a>(f: &'a ServerFolderInfo, segs: &Vec<String>, i: usize) -> (r: Option<
    &'a ServerFolderInfo,
>)
    requires
        folder_wf(*f),
        i <= segs@.len(),
    ensures
        match r {
            Some(g) => lookup_folder_model(folder_view(*f), seg_views(segs@).skip(i as int))
                == Some(folder_view(*g)) && folder_wf(*g),
            None => lookup_folder_model(folder_view(*f), seg_views(segs@).skip(i as int)) is None,
        },
    decreases segs@.len() - i,
{
    if i == segs.len() {
        proof {
            assert(seg_views(segs@).skip(i as int) =~= Seq::<Seq<char>>::empty());
        }
        Some(f)
    } else {
        let ghost sfx = seg_views(segs@).skip(i as int);
        proof {
            assert(sfx[0] == segs@[i as int]@);
            assert(sfx.skip(1) =~= seg_views(segs@).skip(i as int + 1));
        }
        match f.find_folder_idx(&segs[i]) {
            Some(j) => {
                proof {
                    lemma_folders_view_get(f.folders@, j as int);
                    lemma_folder_wf_child(*f, j as int);
                }
                lookup_node(&f.folders[j].1, segs, i + 1)
            },
            None => {
                proof {
                    lemma_folders_view_contains(f.folders@, segs@[i as int]@);
                }
                None
            },
        }
    }
}

/// Walk a segment suffix down the tree, returning the addressed node
/// mutably.  The caller's writes through the result land at the
/// addressed spot of the tree and nowhere else.
fn lookup_node_mut<'a>(f: &'a mut ServerFolderInfo, segs: &Vec<String>, i: usize) -> (r: Option<
    &'a mut ServerFolderInfo,
>)
    requires
        folder_wf(*old(f)),
        i <= segs@.len(),
    ensures
        match r {
            Some(g) => {
                &&& lookup_folder_model(folder_view(*old(f)), seg_views(segs@).skip(i as int))
                    == Some(folder_view(*g))
                &&& folder_wf(*g)
                &&& folder_view(*final(f)) == set_folder_model(
                    folder_view(*old(f)),
                    seg_views(segs@).skip(i as int),
                    folder_view(*final(g)),
                )
                &&& (folder_wf(*final(g)) ==> folder_wf(*final(f)))
            },
            None => {
                &&& folder_view(*final(f)) == folder_view(*old(f))
                &&& folder_wf(*final(f))
                &&& lookup_folder_model(
                    folder_view(*old(f)),
                    seg_views(segs@).skip(i as int),
                ) is None
            },
        },
    decreases segs@.len() - i,
{
    if i == segs.len() {
        proof {
            assert(seg_views(segs@).skip(i as int) =~= Seq::<Seq<char>>::empty());
        }
        Some(f)
    } else {
        let ghost sfx = seg_views(segs@).skip(i as int);
        proof {
            assert(sfx[0] == segs@[i as int]@);
            assert(sfx.skip(1) =~= seg_views(segs@).skip(i as int + 1));
        }
        match f.find_folder_idx(&segs[i]) {
            Some(j) => {
                proof {
                    folder_child_borrow_facts(*f, j as int);
                }
                let child = &mut f.folders[j].1;
                lookup_node_mut(child, segs, i + 1)
            },
            None => {
                proof {
                    lemma_folders_view_contains(f.folders@, segs@[i as int]@);
                }
                None
            },
        }
    }
}

/// Everything the exit conditions of a mutating walk need to know
/// about replacing the `j`-th child with an arbitrary subtree,
/// quantified over that subtree: these facts are established before
/// the child is borrowed, because nothing about the tree may be
/// stated in spec code while the borrow is live.
proof fn folder_child_borrow_facts(f: ServerFolderInfo, j: int)
    requires
        folder_wf(f),
        0 <= j < f.folders@.len(),
    ensures
        folder_view(f).folders.contains_key(f.folders@[j].0@),
        folder_view(f).folders[f.folders@[j].0@] == folder_view(f.folders@[j].1),
        folder_wf(f.folders@[j].1),
        forall|e: ServerFolderInfo|
            folders_view(#[trigger] f.folders@.update(j, (f.folders@[j].0, e)))
                == folder_view(f).folders.insert(f.folders@[j].0@, folder_view(e)),
        forall|e: ServerFolderInfo|
            folders_keys_distinct(#[trigger] f.folders@.update(j, (f.folders@[j].0, e))),
        forall|e: ServerFolderInfo|
            folder_wf(e) ==> folders_all_wf(
                #[trigger] f.folders@.update(j, (f.folders@[j].0, e)),
            ),
        folder_view(f).folders.insert(f.folders@[j].0@, folder_view(f.folders@[j].1))
            == folder_view(f).folders,
{
    lemma_folders_view_get(f.folders@, j);
    lemma_folder_wf_child(f, j);
    assert forall|e: ServerFolderInfo|
        folders_view(#[trigger] f.folders@.update(j, (f.folders@[j].0, e))) == folder_view(
        f,
    ).folders.insert(f.folders@[j].0@, folder_view(e)) by {
        lemma_folders_view_update(f.folders@, j, e);
    }
    assert forall|e: ServerFolderInfo|
        folders_keys_distinct(#[trigger] f.folders@.update(j, (f.folders@[j].0, e))) by {
        lemma_folders_view_update(f.folders@, j, e);
    }
    assert forall|e: ServerFolderInfo| folder_wf(e) implies folders_all_wf(
        #[trigger] f.folders@.update(j, (f.folders@[j].0, e)),
    ) by {
        lemma_folders_all_wf_update(f.folders@, j, e);
    }
    assert(folder_view(f).folders.insert(f.folders@[j].0@, folder_view(f.folders@[j].1)) =~= folder_view(
        f,
    ).folders);
}

/// The same pre-borrow facts for a file entry of the node.
proof fn file_entry_borrow_facts(f: ServerFolderInfo, j: int)
    requires
        folder_wf(f),
        0 <= j < f.files@.len(),
    ensures
        folder_view(f).files.contains_key(f.files@[j].0@),
        folder_view(f).files[f.files@[j].0@] == f.files@[j].1@,
        forall|e: ServerFileInfo|
            files_view(#[trigger] f.files@.update(j, (f.files@[j].0, e))) == folder_view(
                f,
            ).files.insert(f.files@[j].0@, e@),
        forall|e: ServerFileInfo|
            files_keys_distinct(#[trigger] f.files@.update(j, (f.files@[j].0, e))),
{
    lemma_files_view_get(f.files@, j);
    assert forall|e: ServerFileInfo|
        files_view(#[trigger] f.files@.update(j, (f.files@[j].0, e))) == folder_view(
        f,
    ).files.insert(f.files@[j].0@, e@) by {
        lemma_files_view_update(f.files@, j, e);
    }
    assert forall|e: ServerFileInfo|
        files_keys_distinct(#[trigger] f.files@.update(j, (f.files@[j].0, e))) by {
        lemma_files_view_update(f.files@, j, e);
    }
}

/// Walk a segment suffix down the tree, returning the named file
/// entry mutably.  The caller's writes through the result form the
/// entry that ends up stored at that address.
fn file_entry_mut<'a>(
    f: &'a mut ServerFolderInfo,
    segs: &Vec<String>,
    i: usize,
    name: &String,
) -> (r: Option<&'a mut ServerFileInfo>)
    requires
        folder_wf(*old(f)),
        i <= segs@.len(),
    ensures
        match r {
            Some(g) => {
                &&& lookup_file_model(
                    folder_view(*old(f)),
                    seg_views(segs@).skip(i as int),
                    name@,
                ) == Some((*g)@)
                &&& folder_view(*final(f)) == upsert_file_model(
                    folder_view(*old(f)),
                    seg_views(segs@).skip(i as int),
                    name@,
                    (*final(g))@,
                )
                &&& folder_wf(*final(f))
            },
            None => {
                &&& folder_view(*final(f)) == folder_view(*old(f))
                &&& folder_wf(*final(f))
                &&& lookup_file_model(
                    folder_view(*old(f)),
                    seg_views(segs@).skip(i as int),
                    name@,
                ) is None
            },
        },
    decreases segs@.len() - i,
{
    if i == segs.len() {
        proof {
            assert(seg_views(segs@).skip(i as int) =~= Seq::<Seq<char>>::empty());
        }
        match f.find_file_idx(name) {
            Some(j) => {
                proof {
                    file_entry_borrow_facts(*f, j as int);
                }
                Some(&mut f.files[j].1)
            },
            None => {
                proof {
                    lemma_files_view_contains(f.files@, name@);
                }
                None
            },
        }
    } else {
        let ghost sfx = seg_views(segs@).skip(i as int);
        proof {
            assert(sfx[0] == segs@[i as int]@);
            assert(sfx.skip(1) =~= seg_views(segs@).skip(i as int + 1));
        }
        match f.find_folder_idx(&segs[i]) {
            Some(j) => {
                proof {
                    folder_child_borrow_facts(*f, j as int);
                }
                let child = &mut f.folders[j].1;
                file_entry_mut(child, segs, i + 1, name)
            },
            None => {
                proof {
                    lemma_folders_view_contains(f.folders@, segs@[i as int]@);
                }
                None
            },
        }
    }
}

fn check_files_distinct(v: &Vec<(String, ServerFileInfo)>) -> (b: bool)
    ensures
        b == files_keys_distinct(v@),
{
    let mut i: usize = 0;
    while i < v.len()
        invariant
            i <= v@.len(),
            forall|x: int, y: int| 0 <= x < y < i as int ==> v@[x].0@ != v@[y].0@,
        decreases v@.len() - i,
    {
        let mut k: usize = 0;
        while k < i
            invariant
                k <= i < v@.len(),
                forall|x: int, y: int| 0 <= x < y < i as int ==> v@[x].0@ != v@[y].0@,
                forall|x: int| 0 <= x < k as int ==> v@[x].0@ != v@[i as int].0@,
            decreases i - k,
        {
            if v[k].0 == v[i].0 {
                return false;
            }
            k += 1;
        }
        i += 1;
    }
    true
}

fn check_folders_distinct(v: &Vec<(String, ServerFolderInfo)>) -> (b: bool)
    ensures
        b == folders_keys_distinct(v@),
{
    let mut i: usize = 0;
    while i < v.len()
        invariant
            i <= v@.len(),
            forall|x: int, y: int| 0 <= x < y < i as int ==> v@[x].0@ != v@[y].0@,
        decreases v@.len() - i,
    {
        let mut k: usize = 0;
        while k < i
            invariant
                k <= i < v@.len(),
                forall|x: int, y: int| 0 <= x < y < i as int ==> v@[x].0@ != v@[y].0@,
                forall|x: int| 0 <= x < k as int ==> v@[x].0@ != v@[i as int].0@,
            decreases i - k,
        {
            if v[k].0 == v[i].0 {
                return false;
            }
            k += 1;
        }
        i += 1;
    }
    true
}

/// Decide well-formedness of a whole subtree at run time (used when a
/// tree of unknown provenance, such as a decoded snapshot, enters the
/// store).
pub fn check_folder_wf(f: &ServerFolderInfo) -> (b: bool)
    ensures
        b == folder_wf(*f),
    decreases *f,
{
    if !check_files_distinct(&f.files) {
        return false;
    }
    if !check_folders_distinct(&f.folders) {
        return false;
    }
    let mut j: usize = 0;
    while j < f.folders.len()
        invariant
            j <= f.folders@.len(),
            files_keys_distinct(f.files@),
            folders_keys_distinct(f.folders@),
            forall|k: int| 0 <= k < j as int ==> #[trigger] folder_wf(f.folders@[k].1),
        decreases f.folders@.len() - j,
    {
        proof {
            assert(decreases_to!(*f => f.folders));
            assert(decreases_to!(f.folders => f.folders@[j as int].1));
        }
        if !check_folder_wf(&f.folders[j].1) {
            proof {
                lemma_folders_all_wf(f.folders@);
            }
            return false;
        }
        j += 1;
    }
    proof {
        lemma_folders_all_wf(f.folders@);
    }
    true
}

impl FileHolder {
    /// The store's invariant: the tree is well formed.
    pub open spec fn wf(&self) -> bool {
        folder_wf(self.root_folder)
    }

    /// A store with an empty tree (the state a process starts in when
    /// no usable snapshot exists).
    pub fn new() -> (r: Self)
        ensures
            r@ == empty_folder_view(),
            r.wf(),
    {
        FileHolder { root_folder: ServerFolderInfo::default() }
    }

    /// Adopt a tree of unknown provenance (a decoded snapshot);
    /// refused when it is not well formed.
    pub fn from_root(root: ServerFolderInfo) -> (r: Option<FileHolder>)
        ensures
            match r {
                Some(h) => h.root_folder == root && h.wf(),
                None => !folder_wf(root),
            },
    {
        if check_folder_wf(&root) {
            Some(FileHolder { root_folder: root })
        } else {
            None
        }
    }

    /// The folder a path addresses; `None` the instant any segment is
    /// missing.  The empty path addresses the root.
    pub fn folder_info(&self, path: &str) -> (r: Option<&ServerFolderInfo>)
        requires
            self.wf(),
        ensures
            match r {
                Some(g) => lookup_folder_model(self@, path_segs(path@)) == Some(folder_view(*g))
                    && folder_wf(*g),
                None => lookup_folder_model(self@, path_segs(path@)) is None,
            },
    {
        let segs = split_path(path);
        proof {
            assert(seg_views(segs@).skip(0) =~= path_segs(path@));
        }
        lookup_node(&self.root_folder, &segs, 0)
    }

    /// The folder a path addresses, mutably; writes through the
    /// result replace exactly that node of the tree.
    pub fn folder_info_mut(&mut self, path: &str) -> (r: Option<&mut ServerFolderInfo>)
        requires
            old(self).wf(),
        ensures
            match r {
                Some(g) => {
                    &&& lookup_folder_model(old(self)@, path_segs(path@)) == Some(folder_view(*g))
                    &&& folder_wf(*g)
                    &&& final(self)@ == set_folder_model(
                        old(self)@,
                        path_segs(path@),
                        folder_view(*final(g)),
                    )
                    &&& (folder_wf(*final(g)) ==> final(self).wf())
                },
                None => {
                    &&& final(self)@ == old(self)@
                    &&& final(self).wf()
                    &&& lookup_folder_model(old(self)@, path_segs(path@)) is None
                },
            },
    {
        let segs = split_path(path);
        proof {
            assert(seg_views(segs@).skip(0) =~= path_segs(path@));
        }
        lookup_node_mut(&mut self.root_folder, &segs, 0)
    }

    /// The file entry a folder path and name address.
    pub fn file_info(&self, folder_path: &str, file_name: &str) -> (r: Option<&ServerFileInfo>)
        requires
            self.wf(),
        ensures
            match r {
                Some(e) => lookup_file_model(self@, path_segs(folder_path@), file_name@)
                    == Some((*e)@),
                None => lookup_file_model(self@, path_segs(folder_path@), file_name@) is None,
            },
    {
        let name = file_name.to_owned();
        match self.folder_info(folder_path) {
            Some(g) => {
                match g.find_file_idx(&name) {
                    Some(j) => {
                        proof {
                            lemma_files_view_get(g.files@, j as int);
                        }
                        Some(&g.files[j].1)
                    },
                    None => {
                        proof {
                            lemma_files_view_contains(g.files@, name@);
                        }
                        None
                    },
                }
            },
            None => None,
        }
    }

    /// The file entry a folder path and name address, mutably; writes
    /// through the result form the entry stored at that address.
    pub fn file_info_mut(&mut self, folder_path: &str, file_name: &str) -> (r: Option<
        &mut ServerFileInfo,
    >)
        requires
            old(self).wf(),
        ensures
            match r {
                Some(g) => {
                    &&& lookup_file_model(old(self)@, path_segs(folder_path@), file_name@)
                        == Some((*g)@)
                    &&& final(self)@ == upsert_file_model(
                        old(self)@,
                        path_segs(folder_path@),
                        file_name@,
                        (*final(g))@,
                    )
                    &&& final(self).wf()
                },
                None => {
                    &&& final(self)@ == old(self)@
                    &&& final(self).wf()
                    &&& lookup_file_model(
                        old(self)@,
                        path_segs(folder_path@),
                        file_name@,
                    ) is None
                },
            },
    {
        let segs = split_path(folder_path);
        let name = file_name.to_owned();
        proof {
            assert(seg_views(segs@).skip(0) =~= path_segs(folder_path@));
        }
        file_entry_mut(&mut self.root_folder, &segs, 0, &name)
    }

    /// The file entry a folder path and name address, created (along
    /// with any missing intermediate folder) if absent; reports
    /// whether the entry is new so the caller can stamp `created_at`.
    pub fn get_or_create_file_info(&mut self, folder_path: &str, file_name: &str) -> ((
        entry,
        created,
    ): (&mut ServerFileInfo, bool))
        requires
            old(self).wf(),
        ensures
            created == (lookup_file_model(
                old(self)@,
                path_segs(folder_path@),
                file_name@,
            ) is None),
            (*entry)@ == (match lookup_file_model(
                old(self)@,
                path_segs(folder_path@),
                file_name@,
            ) {
                Some(fv) => fv,
                None => default_file_view(),
            }),
            final(self)@ == upsert_file_model(
                old(self)@,
                path_segs(folder_path@),
                file_name@,
                (*final(entry))@,
            ),
            final(self).wf(),
    {
        let segs = split_path(folder_path);
        let name = file_name.to_owned();
        proof {
            assert(seg_views(segs@).skip(0) =~= path_segs(folder_path@));
        }
        get_or_create_entry(&mut self.root_folder, &segs, 0, &name)
    }

    /// Flip the tombstone of a file (toggle, not remove: a second
    /// call restores visibility); `false` when the file is unknown.
    pub fn delete_file(&mut self, folder_path: &str, file_name: &str) -> (r: bool)
        requires
            old(self).wf(),
        ensures
            r == (lookup_file_model(old(self)@, path_segs(folder_path@), file_name@) is Some),
            final(self)@ == toggle_file_model(old(self)@, path_segs(folder_path@), file_name@),
            final(self).wf(),
    {
        match self.file_info_mut(folder_path, file_name) {
            Some(e) => {
                e.deleted = !e.deleted;
                true
            },
            None => false,
        }
    }

    /// Flip the integrity-check opt-out of a file; `false` when the
    /// file is unknown.
    pub fn toggle_hash_check(&mut self, folder_path: &str, file_name: &str) -> (r: bool)
        requires
            old(self).wf(),
        ensures
            r == (lookup_file_model(old(self)@, path_segs(folder_path@), file_name@) is Some),
            final(self)@ == toggle_hash_check_model(
                old(self)@,
                path_segs(folder_path@),
                file_name@,
            ),
            final(self).wf(),
    {
        match self.file_info_mut(folder_path, file_name) {
            Some(e) => {
                e.skip_hash_check = !e.skip_hash_check;
                true
            },
            None => false,
        }
    }

    /// Flip the tombstone of the folder a path addresses; only the
    /// node itself is flagged, its children keep their own flags.
    pub fn delete_folder(&mut self, folder_path: &str) -> (r: bool)
        requires
            old(self).wf(),
        ensures
            r == (lookup_folder_model(old(self)@, path_segs(folder_path@)) is Some),
            final(self)@ == toggle_folder_model(old(self)@, path_segs(folder_path@)),
            final(self).wf(),
    {
        match self.folder_info_mut(folder_path) {
            Some(g) => {
                g.deleted = !g.deleted;
                true
            },
            None => false,
        }
    }

    /// Create a fresh folder under an existing parent; an existing
    /// folder of the same name is replaced by the fresh one, and a
    /// missing parent leaves the tree unchanged.  (The embedding
    /// application creates the matching on-disk directory first and
    /// only calls this when that succeeded.)
    pub fn create_folder(&mut self, parent_folder_path: &str, new_folder_name: &str) -> (r: bool)
        requires
            old(self).wf(),
        ensures
            r == (lookup_folder_model(old(self)@, path_segs(parent_folder_path@)) is Some),
            final(self)@ == create_folder_model(
                old(self)@,
                path_segs(parent_folder_path@),
                new_folder_name@,
            ),
            final(self).wf(),
    {
        let name = new_folder_name.to_owned();
        match self.folder_info_mut(parent_folder_path) {
            Some(g) => {
                let ghost g0 = *g;
                match g.find_folder_idx(&name) {
                    Some(j) => {
                        proof {
                            folder_child_borrow_facts(*g, j as int);
                        }
                        let e = &mut g.folders[j].1;
                        *e = ServerFolderInfo::default();
                        proof {
                            assert(folder_view(*g).folders =~= folder_view(g0).folders.insert(
                                name@,
                                empty_folder_view(),
                            ));
                            assert(folder_wf(*g));
                        }
                    },
                    None => {
                        g.folders.push((name, ServerFolderInfo::default()));
                        proof {
                            let m = g0.folders@.len() as int;
                            lemma_folders_view_push(
                                g0.folders@,
                                g.folders@[m].0,
                                g.folders@[m].1,
                            );
                            lemma_folders_all_wf_push(
                                g0.folders@,
                                g.folders@[m].0,
                                g.folders@[m].1,
                            );
                            assert(folders_keys_distinct(g.folders@));
                            assert(folder_wf(*g));
                        }
                    },
                }
                proof {
                    assert(folder_view(*g) =~~= (FolderView {
                        folders: folder_view(g0).folders.insert(name@, empty_folder_view()),
                        ..folder_view(g0)
                    }));
                }
                true
            },
            None => false,
        }
    }

    /// Upload a file: fingerprint and compress the payload, store the
    /// entry (preserving `created_at` of an existing entry, clearing
    /// its tombstone), and re-run size aggregation over the whole
    /// tree.  Returns the compressed bytes for the embedding
    /// application to persist.
    pub fn add_file(&mut self, folder_path: &str, file_name: &str, bytes: &[u8], now: i64) -> (compressed: Vec<u8>)
        requires
            old(self).wf(),
        ensures
            compressed@ == deflate_of(bytes@),
            inflate_of(compressed@) == Some(bytes@),
            final(self).wf(),
            ({
                let prev = lookup_file_model(old(self)@, path_segs(folder_path@), file_name@);
                let fv = FileView {
                    hash: hex16(sea_hash(bytes@)),
                    size: bytes@.len() as u64,
                    created_at: if prev is Some {
                        prev->Some_0.created_at
                    } else {
                        now
                    },
                    updated_at: now,
                    skip_hash_check: if prev is Some {
                        prev->Some_0.skip_hash_check
                    } else {
                        false
                    },
                    deleted: false,
                };
                &&& lookup_file_model(final(self)@, path_segs(folder_path@), file_name@)
                    == Some(fv)
                &&& (exists|mid: ServerFolderInfo|
                    {
                        &&& #[trigger] folder_view(mid) == upsert_file_model(
                            old(self)@,
                            path_segs(folder_path@),
                            file_name@,
                            fv,
                        )
                        &&& folder_wf(mid)
                        &&& final(self)@ == agg_folder(mid)
                        &&& (subtree_size(mid) <= u64::MAX && subtree_count(mid) <= u32::MAX
                            ==> aggregates_consistent(final(self).root_folder))
                    })
            }),
    {
        let hash = hash_of(bytes);
        let compressed = compress_in_mem(bytes);
        let size = bytes.len() as u64;
        let ghost prev = lookup_file_model(old(self)@, path_segs(folder_path@), file_name@);
        let (entry, created) = self.get_or_create_file_info(folder_path, file_name);
        if created {
            entry.created_at = now;
        }
        entry.hash = hash;
        entry.size = size;
        entry.updated_at = now;
        entry.deleted = false;
        let ghost mid = self.root_folder;
        let ghost fv = (FileView {
            hash: hex16(sea_hash(bytes@)),
            size: bytes@.len() as u64,
            created_at: if prev is Some {
                prev->Some_0.created_at
            } else {
                now
            },
            updated_at: now,
            skip_hash_check: if prev is Some {
                prev->Some_0.skip_hash_check
            } else {
                false
            },
            deleted: false,
        });
        proof {
            assert(folder_view(mid) == upsert_file_model(
                old(self)@,
                path_segs(folder_path@),
                file_name@,
                fv,
            ));
            lemma_lookup_upsert_file(old(self)@, path_segs(folder_path@), file_name@, fv);
            lemma_lookup_file_agg(mid, path_segs(folder_path@), file_name@);
        }
        let (_total_size, _total_count) = self.root_folder.calc_size();
        compressed
    }

    /// Whether a file may be served to a client: it must be in the
    /// index and not tombstoned.  (The embedding application streams
    /// the on-disk compressed artifact behind a raw-file marker when
    /// this holds; a missing artifact is its index/disk divergence to
    /// log and report.)
    pub fn can_send_file(&self, folder_path: &str, file_name: &str) -> (r: bool)
        requires
            self.wf(),
        ensures
            r == (match lookup_file_model(self@, path_segs(folder_path@), file_name@) {
                Some(e) => !e.deleted,
                None => false,
            }),
    {
        match self.file_info(folder_path, file_name) {
            Some(e) => !e.deleted,
            None => false,
        }
    }

    /// A short status line for logs.
    pub fn info(&self) -> (r: String)
        ensures
            r@ == "File Holder:\n\tTotal files: "@ + crate::pipeline::dec_digits(
                self.root_folder.files_count as int,
            ) + "\n"@,
    {
        let count = crate::pipeline::u32_dec(self.root_folder.files_count);
        String::from_str("File Holder:\n\tTotal files: ").concat(count.as_str()).concat("\n")
    }
}

/// Walk a segment suffix, creating every missing folder on the way
/// and the file entry itself if absent, and return the entry mutably
/// together with whether it was just created.
fn get_or_create_entry<'a>(
    f: &'a mut ServerFolderInfo,
    segs: &Vec<String>,
    i: usize,
    name: &String,
) -> ((entry, created): (&'a mut ServerFileInfo, bool))
    requires
        folder_wf(*old(f)),
        i <= segs@.len(),
    ensures
        created == (lookup_file_model(
            folder_view(*old(f)),
            seg_views(segs@).skip(i as int),
            name@,
        ) is None),
        (*entry)@ == (match lookup_file_model(
            folder_view(*old(f)),
            seg_views(segs@).skip(i as int),
            name@,
        ) {
            Some(fv) => fv,
            None => default_file_view(),
        }),
        folder_view(*final(f)) == upsert_file_model(
            folder_view(*old(f)),
            seg_views(segs@).skip(i as int),
            name@,
            (*final(entry))@,
        ),
        folder_wf(*final(f)),
    decreases segs@.len() - i,
{
    if i == segs.len() {
        proof {
            assert(seg_views(segs@).skip(i as int) =~= Seq::<Seq<char>>::empty());
        }
        match f.find_file_idx(name) {
            Some(j) => {
                proof {
                    file_entry_borrow_facts(*f, j as int);
                }
                (&mut f.files[j].1, false)
            },
            None => {
                proof {
                    lemma_files_view_contains(f.files@, name@);
                }
                let n = f.files.len();
                f.files.push((name.clone(), ServerFileInfo::default()));
                proof {
                    lemma_files_view_push(old(f).files@, f.files@[n as int].0, f.files@[n as int].1);
                    assert(files_keys_distinct(f.files@));
                    file_entry_borrow_facts(*f, n as int);
                    let k = name@;
                    let base = folder_view(*old(f)).files;
                    assert forall|w: FileView|
                        (#[trigger] base.insert(k, default_file_view()).insert(k, w)) == base.insert(
                            k,
                            w,
                        ) by {
                        assert(base.insert(k, default_file_view()).insert(k, w) =~= base.insert(
                            k,
                            w,
                        ));
                    }
                }
                (&mut f.files[n].1, true)
            },
        }
    } else {
        let ghost sfx = seg_views(segs@).skip(i as int);
        proof {
            assert(sfx[0] == segs@[i as int]@);
            assert(sfx.skip(1) =~= seg_views(segs@).skip(i as int + 1));
        }
        match f.find_folder_idx(&segs[i]) {
            Some(j) => {
                proof {
                    folder_child_borrow_facts(*f, j as int);
                }
                let child = &mut f.folders[j].1;
                get_or_create_entry(child, segs, i + 1, name)
            },
            None => {
                proof {
                    lemma_folders_view_contains(f.folders@, segs@[i as int]@);
                }
                let n = f.folders.len();
                f.folders.push((segs[i].clone(), ServerFolderInfo::default()));
                proof {
                    lemma_folders_view_push(
                        old(f).folders@,
                        f.folders@[n as int].0,
                        f.folders@[n as int].1,
                    );
                    lemma_folders_all_wf_push(
                        old(f).folders@,
                        f.folders@[n as int].0,
                        f.folders@[n as int].1,
                    );
                    assert(folders_keys_distinct(f.folders@));
                    assert(folder_wf(*f));
                    folder_child_borrow_facts(*f, n as int);
                    let k = segs@[i as int]@;
                    let base = folder_view(*old(f)).folders;
                    assert forall|w: FolderView|
                        (#[trigger] base.insert(k, empty_folder_view()).insert(k, w))
                            == base.insert(k, w) by {
                        assert(base.insert(k, empty_folder_view()).insert(k, w) =~= base.insert(
                            k,
                            w,
                        ));
                    }
                }
                let child = &mut f.folders[n].1;
                get_or_create_entry(child, segs, i + 1, name)
            },
        }
    }
}

} // verus!
