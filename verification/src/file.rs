//! The tree store: a recursive folder/file index.
//!
//! A folder holds child files and child folders keyed by name, a
//! memoized aggregate size and file count, timestamps and a soft-delete
//! tombstone.  The mathematical model of a folder is [`FolderView`]:
//! maps from names to entries, built from the keyed vectors that the
//! executable type carries.

use vstd::prelude::*;

verus! {

/// One file entry: fingerprint and size of the uncompressed bytes,
/// timestamps, the integrity-check opt-out and the soft-delete flag.
pub struct ServerFileInfo {
    pub hash: String,
    pub size: u64,
    pub created_at: i64,
    pub updated_at: i64,
    pub skip_hash_check: bool,
    pub deleted: bool,
}

/// One folder node: memoized aggregates, timestamps, the soft-delete
/// flag, and the children, keyed by name (keys unique per folder).
pub struct ServerFolderInfo {
    pub size: u64,
    pub files_count: u32,
    pub created_at: i64,
    pub updated_at: i64,
    pub deleted: bool,
    pub files: Vec<(String, ServerFileInfo)>,
    pub folders: Vec<(String, ServerFolderInfo)>,
}

/// Mathematical model of a file entry.
#[verifier::ext_equal]
pub struct FileView {
    pub hash: Seq<char>,
    pub size: u64,
    pub created_at: i64,
    pub updated_at: i64,
    pub skip_hash_check: bool,
    pub deleted: bool,
}

/// Mathematical model of a folder node: children as maps from names.
#[verifier::ext_equal]
pub struct FolderView {
    pub size: u64,
    pub files_count: u32,
    pub created_at: i64,
    pub updated_at: i64,
    pub deleted: bool,
    pub files: Map<Seq<char>, FileView>,
    pub folders: Map<Seq<char>, FolderView>,
}

impl View for ServerFileInfo {
    type V = FileView;

    open spec fn view(&self) -> FileView {
        FileView {
            hash: self.hash@,
            size: self.size,
            created_at: self.created_at,
            updated_at: self.updated_at,
            skip_hash_check: self.skip_hash_check,
            deleted: self.deleted,
        }
    }
}

/// The map of file entries named by a keyed vector; a later entry with
/// the same key would win, but well-formed folders have unique keys.
pub open spec fn files_view(s: Seq<(String, ServerFileInfo)>) -> Map<Seq<char>, FileView>
    decreases s.len(),
{
    if s.len() == 0 {
        Map::empty()
    } else {
        files_view(s.drop_last()).insert(s.last().0@, s.last().1@)
    }
}

/// The map of child folders named by a keyed vector.
pub open spec fn folders_view(s: Seq<(String, ServerFolderInfo)>) -> Map<Seq<char>, FolderView>
    decreases s,
{
    if s.len() == 0 {
        Map::empty()
    } else {
        folders_view(s.drop_last()).insert(s.last().0@, folder_view(s.last().1))
    }
}

/// The model of a folder node.
pub open spec fn folder_view(f: ServerFolderInfo) -> FolderView
    decreases f,
{
    FolderView {
        size: f.size,
        files_count: f.files_count,
        created_at: f.created_at,
        updated_at: f.updated_at,
        deleted: f.deleted,
        files: files_view(f.files@),
        folders: folders_view(f.folders@),
    }
}

impl View for ServerFolderInfo {
    type V = FolderView;

    open spec fn view(&self) -> FolderView {
        folder_view(*self)
    }
}

/// Key uniqueness over a keyed vector of files.
pub open spec fn files_keys_distinct(s: Seq<(String, ServerFileInfo)>) -> bool {
    forall|i: int, j: int| 0 <= i < j < s.len() ==> s[i].0@ != s[j].0@
}

/// Key uniqueness over a keyed vector of folders.
pub open spec fn folders_keys_distinct(s: Seq<(String, ServerFolderInfo)>) -> bool {
    forall|i: int, j: int| 0 <= i < j < s.len() ==> s[i].0@ != s[j].0@
}

/// Well-formedness of every child folder of a keyed vector.
pub open spec fn folders_all_wf(s: Seq<(String, ServerFolderInfo)>) -> bool
    decreases s,
{
    if s.len() == 0 {
        true
    } else {
        folders_all_wf(s.drop_last()) && folder_wf(s.last().1)
    }
}

/// Well-formedness of a folder node: names are unique within every
/// folder of the subtree.
pub open spec fn folder_wf(f: ServerFolderInfo) -> bool
    decreases f,
{
    &&& files_keys_distinct(f.files@)
    &&& folders_keys_distinct(f.folders@)
    &&& folders_all_wf(f.folders@)
}

/// `folders_all_wf` holds exactly when every child is well formed.
pub proof fn lemma_folders_all_wf(s: Seq<(String, ServerFolderInfo)>)
    ensures
        folders_all_wf(s) <==> (forall|i: int|
            0 <= i < s.len() ==> #[trigger] folder_wf(s[i].1)),
    decreases s,
{
    if s.len() > 0 {
        lemma_folders_all_wf(s.drop_last());
        assert(s.last() == s[s.len() - 1]);
        if folders_all_wf(s) {
            assert forall|i: int| 0 <= i < s.len() implies #[trigger] folder_wf(s[i].1) by {
                if i < s.len() - 1 {
                    assert(s.drop_last()[i] == s[i]);
                }
            }
        }
        if forall|i: int| 0 <= i < s.len() ==> #[trigger] folder_wf(s[i].1) {
            assert forall|i: int| 0 <= i < s.drop_last().len() implies #[trigger] folder_wf(
                s.drop_last()[i].1,
            ) by {
                assert(s.drop_last()[i] == s[i]);
            }
            assert(folder_wf(s[s.len() - 1].1));
        }
    }
}

/// A well-formed folder's children are well formed.
pub proof fn lemma_folder_wf_child(f: ServerFolderInfo, i: int)
    requires
        folder_wf(f),
        0 <= i < f.folders@.len(),
    ensures
        folder_wf(f.folders@[i].1),
{
    lemma_folders_all_wf(f.folders@);
}

/// Replacing one child (same key) with a well-formed subtree keeps
/// every child well formed.
pub proof fn lemma_folders_all_wf_update(
    s: Seq<(String, ServerFolderInfo)>,
    i: int,
    e: ServerFolderInfo,
)
    requires
        folders_all_wf(s),
        0 <= i < s.len(),
        folder_wf(e),
    ensures
        folders_all_wf(s.update(i, (s[i].0, e))),
{
    let t = s.update(i, (s[i].0, e));
    lemma_folders_all_wf(s);
    lemma_folders_all_wf(t);
    assert forall|k: int| 0 <= k < t.len() implies #[trigger] folder_wf(t[k].1) by {
        if k != i {
            assert(t[k] == s[k]);
        }
    }
}

/// Appending a well-formed subtree keeps every child well formed.
pub proof fn lemma_folders_all_wf_push(
    s: Seq<(String, ServerFolderInfo)>,
    n: String,
    e: ServerFolderInfo,
)
    requires
        folders_all_wf(s),
        folder_wf(e),
    ensures
        folders_all_wf(s.push((n, e))),
{
    assert(s.push((n, e)).drop_last() =~= s);
}

/// The model of a freshly created file entry.
pub open spec fn default_file_view() -> FileView {
    FileView {
        hash: Seq::<char>::empty(),
        size: 0,
        created_at: 0,
        updated_at: 0,
        skip_hash_check: false,
        deleted: false,
    }
}

impl Default for ServerFileInfo {
    /// A fresh entry: empty fingerprint, zero size and timestamps,
    /// visible, integrity checks on.
    fn default() -> (r: Self)
        ensures
            r@ == default_file_view(),
    {
        ServerFileInfo {
            hash: String::new(),
            size: 0,
            created_at: 0,
            updated_at: 0,
            skip_hash_check: false,
            deleted: false,
        }
    }
}

/// The model of a freshly created folder node.
pub open spec fn empty_folder_view() -> FolderView {
    FolderView {
        size: 0,
        files_count: 0,
        created_at: 0,
        updated_at: 0,
        deleted: false,
        files: Map::empty(),
        folders: Map::empty(),
    }
}

impl Default for ServerFolderInfo {
    /// A fresh folder: no children, zero aggregates and timestamps,
    /// visible.
    fn default() -> (r: Self)
        ensures
            r@ == empty_folder_view(),
            folder_wf(r),
    {
        ServerFolderInfo {
            size: 0,
            files_count: 0,
            created_at: 0,
            updated_at: 0,
            deleted: false,
            files: Vec::new(),
            folders: Vec::new(),
        }
    }
}

// ---------------------------------------------------------------------
// Lemmas tying the keyed vectors to their map views.
// ---------------------------------------------------------------------

pub proof fn lemma_files_view_contains(s: Seq<(String, ServerFileInfo)>, k: Seq<char>)
    ensures
        files_view(s).contains_key(k) <==> exists|i: int| 0 <= i < s.len() && s[i].0@ == k,
    decreases s.len(),
{
    if s.len() > 0 {
        lemma_files_view_contains(s.drop_last(), k);
        if files_view(s).contains_key(k) {
            if s.last().0@ != k {
                let i = choose|i: int| 0 <= i < s.drop_last().len() && s.drop_last()[i].0@ == k;
                assert(s[i].0@ == k);
            }
        }
        if exists|i: int| 0 <= i < s.len() && s[i].0@ == k {
            let i = choose|i: int| 0 <= i < s.len() && s[i].0@ == k;
            if i < s.len() - 1 {
                assert(s.drop_last()[i].0@ == k);
            }
        }
    }
}

pub proof fn lemma_files_view_get(s: Seq<(String, ServerFileInfo)>, i: int)
    requires
        files_keys_distinct(s),
        0 <= i < s.len(),
    ensures
        files_view(s).contains_key(s[i].0@),
        files_view(s)[s[i].0@] == s[i].1@,
    decreases s.len(),
{
    lemma_files_view_contains(s, s[i].0@);
    if i < s.len() - 1 {
        assert(s.drop_last()[i] == s[i]);
        lemma_files_view_get(s.drop_last(), i);
        assert(s.last().0@ != s[i].0@);
    }
}

pub proof fn lemma_folders_view_contains(s: Seq<(String, ServerFolderInfo)>, k: Seq<char>)
    ensures
        folders_view(s).contains_key(k) <==> exists|i: int| 0 <= i < s.len() && s[i].0@ == k,
    decreases s.len(),
{
    if s.len() > 0 {
        lemma_folders_view_contains(s.drop_last(), k);
        if folders_view(s).contains_key(k) {
            if s.last().0@ != k {
                let i = choose|i: int| 0 <= i < s.drop_last().len() && s.drop_last()[i].0@ == k;
                assert(s[i].0@ == k);
            }
        }
        if exists|i: int| 0 <= i < s.len() && s[i].0@ == k {
            let i = choose|i: int| 0 <= i < s.len() && s[i].0@ == k;
            if i < s.len() - 1 {
                assert(s.drop_last()[i].0@ == k);
            }
        }
    }
}

pub proof fn lemma_folders_view_get(s: Seq<(String, ServerFolderInfo)>, i: int)
    requires
        folders_keys_distinct(s),
        0 <= i < s.len(),
    ensures
        folders_view(s).contains_key(s[i].0@),
        folders_view(s)[s[i].0@] == folder_view(s[i].1),
    decreases s.len(),
{
    lemma_folders_view_contains(s, s[i].0@);
    if i < s.len() - 1 {
        assert(s.drop_last()[i] == s[i]);
        lemma_folders_view_get(s.drop_last(), i);
        assert(s.last().0@ != s[i].0@);
    }
}

/// Updating one entry in place (same key) updates the map at that key.
pub proof fn lemma_files_view_update(s: Seq<(String, ServerFileInfo)>, i: int, e: ServerFileInfo)
    requires
        files_keys_distinct(s),
        0 <= i < s.len(),
    ensures
        files_view(s.update(i, (s[i].0, e))) =~= files_view(s).insert(s[i].0@, e@),
        files_keys_distinct(s.update(i, (s[i].0, e))),
    decreases s.len(),
{
    let t = s.update(i, (s[i].0, e));
    assert forall|x: int, y: int| 0 <= x < y < t.len() implies t[x].0@ != t[y].0@ by {
        assert(t[x].0@ == s[x].0@ && t[y].0@ == s[y].0@);
    }
    if i == s.len() - 1 {
        assert(t.drop_last() =~= s.drop_last());
    } else {
        lemma_files_view_update(s.drop_last(), i, e);
        assert(t.drop_last() =~= s.drop_last().update(i, (s[i].0, e)));
        assert(t.last() == s.last());
        assert(s.last().0@ != s[i].0@);
    }
}

/// Updating one child folder in place (same key) updates the map at
/// that key.
pub proof fn lemma_folders_view_update(
    s: Seq<(String, ServerFolderInfo)>,
    i: int,
    e: ServerFolderInfo,
)
    requires
        folders_keys_distinct(s),
        0 <= i < s.len(),
    ensures
        folders_view(s.update(i, (s[i].0, e))) =~= folders_view(s).insert(s[i].0@, folder_view(e)),
        folders_keys_distinct(s.update(i, (s[i].0, e))),
    decreases s.len(),
{
    let t = s.update(i, (s[i].0, e));
    assert forall|x: int, y: int| 0 <= x < y < t.len() implies t[x].0@ != t[y].0@ by {
        assert(t[x].0@ == s[x].0@ && t[y].0@ == s[y].0@);
    }
    if i == s.len() - 1 {
        assert(t.drop_last() =~= s.drop_last());
    } else {
        lemma_folders_view_update(s.drop_last(), i, e);
        assert(t.drop_last() =~= s.drop_last().update(i, (s[i].0, e)));
        assert(t.last() == s.last());
        assert(s.last().0@ != s[i].0@);
    }
}

/// Appending an entry with a fresh key inserts it into the map.
pub proof fn lemma_files_view_push(s: Seq<(String, ServerFileInfo)>, n: String, e: ServerFileInfo)
    requires
        forall|i: int| 0 <= i < s.len() ==> s[i].0@ != n@,
    ensures
        files_view(s.push((n, e))) =~= files_view(s).insert(n@, e@),
{
    assert(s.push((n, e)).drop_last() =~= s);
}

/// Appending a child folder with a fresh key inserts it into the map.
pub proof fn lemma_folders_view_push(
    s: Seq<(String, ServerFolderInfo)>,
    n: String,
    e: ServerFolderInfo,
)
    requires
        forall|i: int| 0 <= i < s.len() ==> s[i].0@ != n@,
    ensures
        folders_view(s.push((n, e))) =~= folders_view(s).insert(n@, folder_view(e)),
{
    assert(s.push((n, e)).drop_last() =~= s);
}

// ---------------------------------------------------------------------
// Size aggregation.
// ---------------------------------------------------------------------

/// Total byte size of the file entries of one keyed vector.
pub open spec fn files_size_sum(s: Seq<(String, ServerFileInfo)>) -> int
    decreases s.len(),
{
    if s.len() == 0 {
        0
    } else {
        files_size_sum(s.drop_last()) + s.last().1.size
    }
}

/// Total byte size of all files below the child folders of one keyed
/// vector.
pub open spec fn folders_size_sum(s: Seq<(String, ServerFolderInfo)>) -> int
    decreases s,
{
    if s.len() == 0 {
        0
    } else {
        folders_size_sum(s.drop_last()) + subtree_size(s.last().1)
    }
}

/// Total byte size of all files in the subtree of a folder.
pub open spec fn subtree_size(f: ServerFolderInfo) -> int
    decreases f,
{
    files_size_sum(f.files@) + folders_size_sum(f.folders@)
}

/// Number of files below the child folders of one keyed vector.
pub open spec fn folders_count_sum(s: Seq<(String, ServerFolderInfo)>) -> int
    decreases s,
{
    if s.len() == 0 {
        0
    } else {
        folders_count_sum(s.drop_last()) + subtree_count(s.last().1)
    }
}

/// Number of files in the subtree of a folder.
pub open spec fn subtree_count(f: ServerFolderInfo) -> int
    decreases f,
{
    f.files@.len() + folders_count_sum(f.folders@)
}

/// Saturation of an aggregate to the 64-bit field that memoizes it.
pub open spec fn clip_u64(x: int) -> u64 {
    if x > u64::MAX {
        u64::MAX
    } else if x < 0 {
        0
    } else {
        x as u64
    }
}

/// Saturation of an aggregate to the 32-bit field that memoizes it.
pub open spec fn clip_u32(x: int) -> u32 {
    if x > u32::MAX {
        u32::MAX
    } else if x < 0 {
        0
    } else {
        x as u32
    }
}

/// The model of a folder after a size-aggregation pass: every node's
/// `size` and `files_count` hold its subtree totals (saturated to the
/// field width); everything else is untouched.
pub open spec fn agg_folders(s: Seq<(String, ServerFolderInfo)>) -> Map<Seq<char>, FolderView>
    decreases s,
{
    if s.len() == 0 {
        Map::empty()
    } else {
        agg_folders(s.drop_last()).insert(s.last().0@, agg_folder(s.last().1))
    }
}

/// See [`agg_folders`]: the aggregated model of one folder.
pub open spec fn agg_folder(f: ServerFolderInfo) -> FolderView
    decreases f,
{
    FolderView {
        size: clip_u64(subtree_size(f)),
        files_count: clip_u32(subtree_count(f)),
        created_at: f.created_at,
        updated_at: f.updated_at,
        deleted: f.deleted,
        files: files_view(f.files@),
        folders: agg_folders(f.folders@),
    }
}

/// The memoized aggregates are consistent: in every folder of the
/// subtree, `size` is the sum of the direct files' sizes plus the
/// direct child folders' `size` fields, and `files_count` counts the
/// direct files plus the child folders' `files_count` fields.
pub open spec fn aggregates_consistent(f: ServerFolderInfo) -> bool
    decreases f,
{
    &&& f.size == files_size_sum(f.files@) + folders_field_size_sum(f.folders@)
    &&& f.files_count == f.files@.len() + folders_field_count_sum(f.folders@)
    &&& forall|i: int|
        0 <= i < f.folders@.len() ==> #[trigger] aggregates_consistent(f.folders@[i].1)
}

/// Sum of the child folders' memoized `size` fields.
pub open spec fn folders_field_size_sum(s: Seq<(String, ServerFolderInfo)>) -> int
    decreases s.len(),
{
    if s.len() == 0 {
        0
    } else {
        folders_field_size_sum(s.drop_last()) + s.last().1.size
    }
}

/// Sum of the child folders' memoized `files_count` fields.
pub open spec fn folders_field_count_sum(s: Seq<(String, ServerFolderInfo)>) -> int
    decreases s.len(),
{
    if s.len() == 0 {
        0
    } else {
        folders_field_count_sum(s.drop_last()) + s.last().1.files_count
    }
}

pub proof fn lemma_files_size_sum_nonneg(s: Seq<(String, ServerFileInfo)>)
    ensures
        files_size_sum(s) >= 0,
    decreases s.len(),
{
    if s.len() > 0 {
        lemma_files_size_sum_nonneg(s.drop_last());
    }
}

pub proof fn lemma_folders_size_sum_nonneg(s: Seq<(String, ServerFolderInfo)>)
    ensures
        folders_size_sum(s) >= 0,
    decreases s,
{
    if s.len() > 0 {
        lemma_folders_size_sum_nonneg(s.drop_last());
        lemma_subtree_size_nonneg(s.last().1);
    }
}

pub proof fn lemma_subtree_size_nonneg(f: ServerFolderInfo)
    ensures
        subtree_size(f) >= 0,
    decreases f,
{
    lemma_files_size_sum_nonneg(f.files@);
    lemma_folders_size_sum_nonneg(f.folders@);
}

pub proof fn lemma_folders_count_sum_nonneg(s: Seq<(String, ServerFolderInfo)>)
    ensures
        folders_count_sum(s) >= 0,
    decreases s,
{
    if s.len() > 0 {
        lemma_folders_count_sum_nonneg(s.drop_last());
        lemma_subtree_count_nonneg(s.last().1);
    }
}

pub proof fn lemma_subtree_count_nonneg(f: ServerFolderInfo)
    ensures
        subtree_count(f) >= 0,
    decreases f,
{
    lemma_folders_count_sum_nonneg(f.folders@);
}

proof fn lemma_files_size_sum_step(s: Seq<(String, ServerFileInfo)>, i: int)
    requires
        0 <= i < s.len(),
    ensures
        files_size_sum(s.take(i + 1)) == files_size_sum(s.take(i)) + s[i].1.size,
{
    assert(s.take(i + 1).drop_last() =~= s.take(i));
    assert(s.take(i + 1).last() == s[i]);
}

proof fn lemma_folders_size_sum_step(s: Seq<(String, ServerFolderInfo)>, i: int)
    requires
        0 <= i < s.len(),
    ensures
        folders_size_sum(s.take(i + 1)) == folders_size_sum(s.take(i)) + subtree_size(s[i].1),
        folders_count_sum(s.take(i + 1)) == folders_count_sum(s.take(i)) + subtree_count(s[i].1),
{
    assert(s.take(i + 1).drop_last() =~= s.take(i));
    assert(s.take(i + 1).last() == s[i]);
}

/// Every child subtree's totals are bounded by the vector's totals.
proof fn lemma_folders_sums_bound(s: Seq<(String, ServerFolderInfo)>, i: int)
    requires
        0 <= i < s.len(),
    ensures
        subtree_size(s[i].1) <= folders_size_sum(s),
        subtree_count(s[i].1) <= folders_count_sum(s),
    decreases s,
{
    if i == s.len() - 1 {
        lemma_folders_size_sum_nonneg(s.drop_last());
        lemma_folders_count_sum_nonneg(s.drop_last());
    } else {
        lemma_folders_sums_bound(s.drop_last(), i);
        lemma_subtree_size_nonneg(s.last().1);
        lemma_subtree_count_nonneg(s.last().1);
        assert(s.drop_last()[i] == s[i]);
    }
}

/// If the rebuilt vector keeps the keys and aggregates each child,
/// its map view is the aggregated map of the original.
proof fn lemma_folders_view_of_agg(
    orig: Seq<(String, ServerFolderInfo)>,
    done: Seq<(String, ServerFolderInfo)>,
)
    requires
        done.len() == orig.len(),
        forall|k: int| #![all_triggers]
            0 <= k < orig.len() ==> done[k].0@ == orig[k].0@ && folder_view(done[k].1)
                == agg_folder(orig[k].1),
    ensures
        folders_view(done) =~= agg_folders(orig),
    decreases orig.len(),
{
    if orig.len() > 0 {
        assert forall|k: int| #![all_triggers] 0 <= k < orig.drop_last().len() implies done.drop_last()[k].0@
            == orig.drop_last()[k].0@ && folder_view(done.drop_last()[k].1) == agg_folder(
            orig.drop_last()[k].1,
        ) by {
            assert(done.drop_last()[k] == done[k]);
            assert(orig.drop_last()[k] == orig[k]);
        }
        lemma_folders_view_of_agg(orig.drop_last(), done.drop_last());
        assert(done.last().0@ == orig.last().0@);
        assert(folder_view(done.last().1) == agg_folder(orig.last().1));
    }
}

/// If the rebuilt vector's children carry the subtree totals of the
/// original children, its field sums equal the original's deep sums.
proof fn lemma_field_sums_match(
    orig: Seq<(String, ServerFolderInfo)>,
    done: Seq<(String, ServerFolderInfo)>,
)
    requires
        done.len() == orig.len(),
        forall|k: int| #![all_triggers]
            0 <= k < orig.len() ==> done[k].1.size == subtree_size(orig[k].1)
                && done[k].1.files_count == subtree_count(orig[k].1),
    ensures
        folders_field_size_sum(done) == folders_size_sum(orig),
        folders_field_count_sum(done) == folders_count_sum(orig),
    decreases orig.len(),
{
    if orig.len() > 0 {
        assert forall|k: int| #![all_triggers] 0 <= k < orig.drop_last().len() implies done.drop_last()[k].1.size
            == subtree_size(orig.drop_last()[k].1) && done.drop_last()[k].1.files_count
            == subtree_count(orig.drop_last()[k].1) by {
            assert(done.drop_last()[k] == done[k]);
            assert(orig.drop_last()[k] == orig[k]);
        }
        lemma_field_sums_match(orig.drop_last(), done.drop_last());
        assert(done.last() == done[orig.len() - 1]);
        assert(orig.last() == orig[orig.len() - 1]);
    }
}

// ---------------------------------------------------------------------
// Path-addressed model operations.
// ---------------------------------------------------------------------

/// The folder a segment chain addresses, if every segment exists.
/// The empty chain addresses the node itself.
pub open spec fn lookup_folder_model(v: FolderView, path: Seq<Seq<char>>) -> Option<FolderView>
    decreases path.len(),
{
    if path.len() == 0 {
        Some(v)
    } else if v.folders.contains_key(path[0]) {
        lookup_folder_model(v.folders[path[0]], path.skip(1))
    } else {
        None
    }
}

/// The file entry a folder path and a name address, if present.
pub open spec fn lookup_file_model(
    v: FolderView,
    path: Seq<Seq<char>>,
    name: Seq<char>,
) -> Option<FileView> {
    match lookup_folder_model(v, path) {
        Some(g) => if g.files.contains_key(name) {
            Some(g.files[name])
        } else {
            None
        },
        None => None,
    }
}

/// Replace the folder at an existing path with `g`; the tree is
/// unchanged when the path does not exist.
pub open spec fn set_folder_model(v: FolderView, path: Seq<Seq<char>>, g: FolderView) -> FolderView
    decreases path.len(),
{
    if path.len() == 0 {
        g
    } else if v.folders.contains_key(path[0]) {
        FolderView {
            folders: v.folders.insert(
                path[0],
                set_folder_model(v.folders[path[0]], path.skip(1), g),
            ),
            ..v
        }
    } else {
        v
    }
}

/// Write the file entry at a path and name, creating every missing
/// folder along the way (lazy directory creation).
pub open spec fn upsert_file_model(
    v: FolderView,
    path: Seq<Seq<char>>,
    name: Seq<char>,
    fv: FileView,
) -> FolderView
    decreases path.len(),
{
    if path.len() == 0 {
        FolderView { files: v.files.insert(name, fv), ..v }
    } else {
        let child = if v.folders.contains_key(path[0]) {
            v.folders[path[0]]
        } else {
            empty_folder_view()
        };
        FolderView {
            folders: v.folders.insert(path[0], upsert_file_model(child, path.skip(1), name, fv)),
            ..v
        }
    }
}

/// A file entry with its tombstone flipped.
pub open spec fn toggle_deleted(fv: FileView) -> FileView {
    FileView { deleted: !fv.deleted, ..fv }
}

/// The tree after flipping a file's tombstone; unchanged when the
/// file is absent.
pub open spec fn toggle_file_model(
    v: FolderView,
    path: Seq<Seq<char>>,
    name: Seq<char>,
) -> FolderView {
    match lookup_file_model(v, path, name) {
        Some(fv) => upsert_file_model(v, path, name, toggle_deleted(fv)),
        None => v,
    }
}

/// The tree after flipping a file's integrity-check opt-out;
/// unchanged when the file is absent.
pub open spec fn toggle_hash_check_model(
    v: FolderView,
    path: Seq<Seq<char>>,
    name: Seq<char>,
) -> FolderView {
    match lookup_file_model(v, path, name) {
        Some(fv) => upsert_file_model(
            v,
            path,
            name,
            FileView { skip_hash_check: !fv.skip_hash_check, ..fv },
        ),
        None => v,
    }
}

/// The tree after flipping a folder's tombstone; unchanged when the
/// folder is absent.  Only the folder node itself is flagged; its
/// children keep their own flags.
pub open spec fn toggle_folder_model(v: FolderView, path: Seq<Seq<char>>) -> FolderView {
    match lookup_folder_model(v, path) {
        Some(g) => set_folder_model(v, path, FolderView { deleted: !g.deleted, ..g }),
        None => v,
    }
}

/// The tree after creating a fresh (empty) folder named `name` under
/// an existing parent path; an existing folder of that name is
/// replaced, and a missing parent leaves the tree unchanged.
pub open spec fn create_folder_model(
    v: FolderView,
    parent: Seq<Seq<char>>,
    name: Seq<char>,
) -> FolderView {
    match lookup_folder_model(v, parent) {
        Some(g) => set_folder_model(
            v,
            parent,
            FolderView { folders: g.folders.insert(name, empty_folder_view()), ..g },
        ),
        None => v,
    }
}

/// An upsert lands the written entry at its address.
pub proof fn lemma_lookup_upsert_file(
    v: FolderView,
    path: Seq<Seq<char>>,
    name: Seq<char>,
    fv: FileView,
)
    ensures
        lookup_file_model(upsert_file_model(v, path, name, fv), path, name) == Some(fv),
    decreases path.len(),
{
    if path.len() > 0 {
        let child = if v.folders.contains_key(path[0]) {
            v.folders[path[0]]
        } else {
            empty_folder_view()
        };
        lemma_lookup_upsert_file(child, path.skip(1), name, fv);
    }
}

/// Writing the same address twice keeps only the second write.
pub proof fn lemma_upsert_upsert(
    v: FolderView,
    path: Seq<Seq<char>>,
    name: Seq<char>,
    a: FileView,
    b: FileView,
)
    ensures
        upsert_file_model(upsert_file_model(v, path, name, a), path, name, b)
            == upsert_file_model(v, path, name, b),
    decreases path.len(),
{
    let va = upsert_file_model(v, path, name, a);
    if path.len() == 0 {
        assert(upsert_file_model(va, path, name, b) =~~= upsert_file_model(v, path, name, b));
    } else {
        let child = if v.folders.contains_key(path[0]) {
            v.folders[path[0]]
        } else {
            empty_folder_view()
        };
        lemma_upsert_upsert(child, path.skip(1), name, a, b);
        assert(va.folders[path[0]] == upsert_file_model(child, path.skip(1), name, a));
        let bb = upsert_file_model(child, path.skip(1), name, b);
        assert(va.folders.insert(path[0], bb) =~= v.folders.insert(path[0], bb));
        assert(upsert_file_model(va, path, name, b) =~= upsert_file_model(v, path, name, b));
    }
}

/// Writing back the entry that is already there changes nothing.
pub proof fn lemma_upsert_identity(v: FolderView, path: Seq<Seq<char>>, name: Seq<char>)
    requires
        lookup_file_model(v, path, name) is Some,
    ensures
        upsert_file_model(v, path, name, lookup_file_model(v, path, name)->Some_0) == v,
    decreases path.len(),
{
    let fv = lookup_file_model(v, path, name)->Some_0;
    if path.len() == 0 {
        assert(v.files.insert(name, fv) =~= v.files);
        assert(upsert_file_model(v, path, name, fv) =~= v);
    } else {
        let child = v.folders[path[0]];
        lemma_upsert_identity(child, path.skip(1), name);
        assert(upsert_file_model(child, path.skip(1), name, fv) == child);
        assert(v.folders.insert(path[0], child) =~= v.folders);
        assert(upsert_file_model(v, path, name, fv) =~= v);
    }
}

/// Toggling a file's tombstone twice returns the tree to its original
/// value (the toggle is an involution); an absent file leaves the tree
/// unchanged both times.
pub proof fn lemma_toggle_file_involution(v: FolderView, path: Seq<Seq<char>>, name: Seq<char>)
    ensures
        toggle_file_model(toggle_file_model(v, path, name), path, name) == v,
{
    match lookup_file_model(v, path, name) {
        Some(fv) => {
            let v1 = upsert_file_model(v, path, name, toggle_deleted(fv));
            lemma_lookup_upsert_file(v, path, name, toggle_deleted(fv));
            assert(toggle_deleted(toggle_deleted(fv)) =~= fv);
            lemma_upsert_upsert(v, path, name, toggle_deleted(fv), fv);
            lemma_upsert_identity(v, path, name);
        },
        None => {},
    }
}

/// A set lands the written folder at its address.
pub proof fn lemma_lookup_set_folder(v: FolderView, path: Seq<Seq<char>>, g: FolderView)
    requires
        lookup_folder_model(v, path) is Some,
    ensures
        lookup_folder_model(set_folder_model(v, path, g), path) == Some(g),
    decreases path.len(),
{
    if path.len() > 0 {
        lemma_lookup_set_folder(v.folders[path[0]], path.skip(1), g);
    }
}

/// Replacing the folder at the same existing path twice keeps only
/// the second replacement.
pub proof fn lemma_set_set_folder(v: FolderView, path: Seq<Seq<char>>, g1: FolderView, g2: FolderView)
    requires
        lookup_folder_model(v, path) is Some,
    ensures
        set_folder_model(set_folder_model(v, path, g1), path, g2) == set_folder_model(v, path, g2),
    decreases path.len(),
{
    if path.len() > 0 {
        let v1 = set_folder_model(v, path, g1);
        lemma_set_set_folder(v.folders[path[0]], path.skip(1), g1, g2);
        assert(v1.folders[path[0]] == set_folder_model(v.folders[path[0]], path.skip(1), g1));
        let bb = set_folder_model(v.folders[path[0]], path.skip(1), g2);
        assert(v1.folders.insert(path[0], bb) =~= v.folders.insert(path[0], bb));
        assert(set_folder_model(v1, path, g2) =~= set_folder_model(v, path, g2));
    }
}

/// Writing back the folder that is already there changes nothing.
pub proof fn lemma_set_identity(v: FolderView, path: Seq<Seq<char>>)
    requires
        lookup_folder_model(v, path) is Some,
    ensures
        set_folder_model(v, path, lookup_folder_model(v, path)->Some_0) == v,
    decreases path.len(),
{
    if path.len() > 0 {
        let g = lookup_folder_model(v, path)->Some_0;
        lemma_set_identity(v.folders[path[0]], path.skip(1));
        assert(set_folder_model(v.folders[path[0]], path.skip(1), g) == v.folders[path[0]]);
        assert(v.folders.insert(path[0], v.folders[path[0]]) =~= v.folders);
        assert(set_folder_model(v, path, g) =~= v);
    }
}

/// Toggling a folder's tombstone twice returns the tree to its
/// original value (the toggle is an involution).
pub proof fn lemma_toggle_folder_involution(v: FolderView, path: Seq<Seq<char>>)
    ensures
        toggle_folder_model(toggle_folder_model(v, path), path) == v,
{
    match lookup_folder_model(v, path) {
        Some(g) => {
            let g1 = FolderView { deleted: !g.deleted, ..g };
            lemma_lookup_set_folder(v, path, g1);
            assert(FolderView { deleted: !g1.deleted, ..g1 } =~~= g);
            lemma_set_set_folder(v, path, g1, g);
            lemma_set_identity(v, path);
        },
        None => {},
    }
}

/// Two racing writers to the same address: whichever write lands
/// second wins whole; the stored entry is exactly the second write's,
/// never a mix of fields from both.
pub proof fn lemma_last_write_wins(
    v: FolderView,
    path: Seq<Seq<char>>,
    name: Seq<char>,
    first: FileView,
    second: FileView,
)
    ensures
        upsert_file_model(upsert_file_model(v, path, name, first), path, name, second)
            == upsert_file_model(v, path, name, second),
        lookup_file_model(
            upsert_file_model(upsert_file_model(v, path, name, first), path, name, second),
            path,
            name,
        ) == Some(second),
{
    lemma_upsert_upsert(v, path, name, first, second);
    lemma_lookup_upsert_file(v, path, name, second);
}

// ---------------------------------------------------------------------
// Aggregation leaves the tree's shape and file entries alone.
// ---------------------------------------------------------------------

proof fn lemma_agg_folders_contains(s: Seq<(String, ServerFolderInfo)>, k: Seq<char>)
    ensures
        agg_folders(s).contains_key(k) <==> exists|i: int| 0 <= i < s.len() && s[i].0@ == k,
    decreases s.len(),
{
    if s.len() > 0 {
        lemma_agg_folders_contains(s.drop_last(), k);
        if agg_folders(s).contains_key(k) {
            if s.last().0@ != k {
                let i = choose|i: int| 0 <= i < s.drop_last().len() && s.drop_last()[i].0@ == k;
                assert(s[i].0@ == k);
            }
        }
        if exists|i: int| 0 <= i < s.len() && s[i].0@ == k {
            let i = choose|i: int| 0 <= i < s.len() && s[i].0@ == k;
            if i < s.len() - 1 {
                assert(s.drop_last()[i].0@ == k);
            }
        }
    }
}

proof fn lemma_agg_folders_get(s: Seq<(String, ServerFolderInfo)>, i: int)
    requires
        folders_keys_distinct(s),
        0 <= i < s.len(),
    ensures
        agg_folders(s).contains_key(s[i].0@),
        agg_folders(s)[s[i].0@] == agg_folder(s[i].1),
    decreases s.len(),
{
    lemma_agg_folders_contains(s, s[i].0@);
    if i < s.len() - 1 {
        assert(s.drop_last()[i] == s[i]);
        lemma_agg_folders_get(s.drop_last(), i);
        assert(s.last().0@ != s[i].0@);
    }
}

/// An aggregation pass moves no file: every file entry reads the same
/// before and after.
pub proof fn lemma_lookup_file_agg(f: ServerFolderInfo, path: Seq<Seq<char>>, name: Seq<char>)
    requires
        folder_wf(f),
    ensures
        lookup_file_model(agg_folder(f), path, name) == lookup_file_model(
            folder_view(f),
            path,
            name,
        ),
    decreases path.len(),
{
    if path.len() == 0 {
    } else {
        lemma_agg_folders_contains(f.folders@, path[0]);
        lemma_folders_view_contains(f.folders@, path[0]);
        if agg_folders(f.folders@).contains_key(path[0]) {
            let i = choose|i: int| 0 <= i < f.folders@.len() && f.folders@[i].0@ == path[0];
            lemma_agg_folders_get(f.folders@, i);
            lemma_folders_view_get(f.folders@, i);
            lemma_folder_wf_child(f, i);
            lemma_lookup_file_agg(f.folders@[i].1, path.skip(1), name);
        }
    }
}

proof fn lemma_clip_add_u64(a: int, b: int)
    requires
        a >= 0,
        b >= 0,
    ensures
        clip_u64(clip_u64(a) as int + clip_u64(b) as int) == clip_u64(a + b),
{
}

proof fn lemma_clip_add_u32(a: int, b: int)
    requires
        a >= 0,
        b >= 0,
    ensures
        clip_u32(clip_u32(a) as int + clip_u32(b) as int) == clip_u32(a + b),
{
}

fn sat_add_u64(a: u64, b: u64) -> (r: u64)
    ensures
        r == clip_u64(a + b),
{
    if a > u64::MAX - b {
        u64::MAX
    } else {
        a + b
    }
}

fn sat_add_u32(a: u32, b: u32) -> (r: u32)
    ensures
        r == clip_u32(a + b),
{
    if a > u32::MAX - b {
        u32::MAX
    } else {
        a + b
    }
}

/// One aggregation pass over an owned subtree; see [`agg_folder`].
fn calc_size_owned(node: ServerFolderInfo) -> (res: (ServerFolderInfo, u64, u32))
    ensures
        res.0@ == agg_folder(node),
        res.1 == clip_u64(subtree_size(node)),
        res.2 == clip_u32(subtree_count(node)),
        folder_wf(node) ==> folder_wf(res.0),
        subtree_size(node) <= u64::MAX && subtree_count(node) <= u32::MAX
            ==> aggregates_consistent(res.0),
    decreases node,
{
    let mut f = node;
    let mut size: u64 = 0;
    let mut count: u32 = 0;

    let nf = f.files.len();
    let mut i: usize = 0;
    while i < nf
        invariant
            nf == f.files@.len(),
            0 <= i <= nf,
            f == node,
            size == clip_u64(files_size_sum(f.files@.take(i as int))),
            count == clip_u32(i as int),
        decreases nf - i,
    {
        let s = f.files[i].1.size;
        proof {
            lemma_files_size_sum_step(f.files@, i as int);
            lemma_files_size_sum_nonneg(f.files@.take(i as int));
        }
        size = sat_add_u64(size, s);
        count = sat_add_u32(count, 1);
        i += 1;
    }
    proof {
        assert(f.files@.take(nf as int) =~= f.files@);
    }

    let ghost files_total = files_size_sum(node.files@);
    let mut done: Vec<(String, ServerFolderInfo)> = Vec::new();
    while f.folders.len() > 0
        invariant
            f.files == node.files,
            f.size == node.size,
            f.files_count == node.files_count,
            f.created_at == node.created_at,
            f.updated_at == node.updated_at,
            f.deleted == node.deleted,
            files_total == files_size_sum(node.files@),
            done@.len() + f.folders@.len() == node.folders@.len(),
            forall|k: int|
                0 <= k < f.folders@.len() ==> f.folders@[k] == node.folders@[
                    done@.len() + k],
            forall|k: int| #![all_triggers]
                0 <= k < done@.len() ==> done@[k].0@ == node.folders@[k].0@
                    && folder_view(done@[k].1) == agg_folder(node.folders@[k].1)
                    && done@[k].1.size == clip_u64(subtree_size(node.folders@[k].1))
                    && done@[k].1.files_count == clip_u32(subtree_count(node.folders@[k].1))
                    && (folder_wf(node.folders@[k].1) ==> folder_wf(done@[k].1))
                    && (subtree_size(node.folders@[k].1) <= u64::MAX && subtree_count(
                        node.folders@[k].1,
                    ) <= u32::MAX ==> aggregates_consistent(done@[k].1)),
            size == clip_u64(files_total + folders_size_sum(node.folders@.take(done@.len() as int))),
            count == clip_u32(node.files@.len() + folders_count_sum(
                node.folders@.take(done@.len() as int),
            )),
        decreases f.folders@.len(),
    {
        let ghost k = done@.len() as int;
        let (name, child) = f.folders.remove(0);
        proof {
            assert(child == node.folders@[k].1);
            assert(decreases_to!(node => node.folders));
            assert(decreases_to!(node.folders => node.folders@[k].1));
        }
        let (child2, s, c) = calc_size_owned(child);
        proof {
            lemma_folders_size_sum_step(node.folders@, k);
            lemma_folders_size_sum_nonneg(node.folders@.take(k));
            lemma_folders_count_sum_nonneg(node.folders@.take(k));
            lemma_subtree_size_nonneg(child);
            lemma_subtree_count_nonneg(child);
            lemma_files_size_sum_nonneg(node.files@);
        }
        size = sat_add_u64(size, s);
        count = sat_add_u32(count, c);
        proof {
            lemma_clip_add_u64(files_total + folders_size_sum(node.folders@.take(k)),
                subtree_size(child));
            lemma_clip_add_u32(node.files@.len() + folders_count_sum(node.folders@.take(k)),
                subtree_count(child));
            assert(size == clip_u64(
                files_total + folders_size_sum(node.folders@.take(k + 1)),
            ));
            assert(count == clip_u32(
                node.files@.len() + folders_count_sum(node.folders@.take(k + 1)),
            ));
        }
        done.push((name, child2));
    }
    proof {
        assert(node.folders@.take(node.folders@.len() as int) =~= node.folders@);
    }
    f.folders = done;
    f.size = size;
    f.files_count = count;

    proof {
        assert(f.folders@.len() == node.folders@.len());
        lemma_folders_view_of_agg(node.folders@, f.folders@);
        assert(f@ =~~= agg_folder(node));
        if folder_wf(node) {
            assert forall|x: int, y: int| 0 <= x < y < f.folders@.len() implies f.folders@[x].0@
                != f.folders@[y].0@ by {
                assert(f.folders@[x].0@ == node.folders@[x].0@);
                assert(f.folders@[y].0@ == node.folders@[y].0@);
            }
            assert forall|j: int| 0 <= j < f.folders@.len() implies #[trigger] folder_wf(
                f.folders@[j].1,
            ) by {
                lemma_folder_wf_child(node, j);
            }
            lemma_folders_all_wf(f.folders@);
            assert(folder_wf(f));
        }
        if subtree_size(node) <= u64::MAX && subtree_count(node) <= u32::MAX {
            lemma_files_size_sum_nonneg(node.files@);
            lemma_folders_size_sum_nonneg(node.folders@);
            lemma_folders_count_sum_nonneg(node.folders@);
            assert forall|k: int| #![all_triggers] 0 <= k < f.folders@.len() implies f.folders@[k].1.size
                == subtree_size(node.folders@[k].1) && f.folders@[k].1.files_count
                == subtree_count(node.folders@[k].1) && aggregates_consistent(
                f.folders@[k].1,
            ) by {
                lemma_folders_sums_bound(node.folders@, k);
                lemma_subtree_size_nonneg(node.folders@[k].1);
                lemma_subtree_count_nonneg(node.folders@[k].1);
            }
            lemma_field_sums_match(node.folders@, f.folders@);
            assert(aggregates_consistent(f));
        }
    }
    (f, size, count)
}

impl ServerFolderInfo {
    /// Recompute the memoized `size` and `files_count` of every node,
    /// bottom up, and return the root's totals.  After the pass every
    /// folder's aggregates are consistent with its children's
    /// (exactly, whenever the true totals fit the field widths;
    /// saturated otherwise).
    pub fn calc_size(&mut self) -> (r: (u64, u32))
        ensures
            final(self)@ == agg_folder(*old(self)),
            r.0 == clip_u64(subtree_size(*old(self))) && final(self).size == r.0,
            r.1 == clip_u32(subtree_count(*old(self))) && final(self).files_count == r.1,
            folder_wf(*old(self)) ==> folder_wf(*final(self)),
            subtree_size(*old(self)) <= u64::MAX && subtree_count(*old(self)) <= u32::MAX
                ==> aggregates_consistent(*final(self)),
    {
        let mut tmp = ServerFolderInfo::default();
        core::mem::swap(self, &mut tmp);
        let (f, s, c) = calc_size_owned(tmp);
        *self = f;
        (s, c)
    }
}

} // verus!
