//! The keyed patch-note store.
//!
//! Notes get increasing identifiers; the vector keeps them in
//! identifier order, so a listing needs no sorting pass.  Persistence
//! of the store is the embedding application's concern.

use vstd::prelude::*;

use crate::admin_panel::PatchNote;

verus! {

/// The patch notes with the next identifier to hand out.
pub struct PatchNoteHolder {
    pub next_id: u32,
    pub items: Vec<PatchNote>,
}

impl PatchNoteHolder {
    /// The store's invariant: identifiers strictly increase along the
    /// vector and stay below the next one to hand out.
    pub open spec fn wf(&self) -> bool {
        &&& forall|i: int, j: int|
            0 <= i < j < self.items@.len() ==> self.items@[i].id < self.items@[j].id
        &&& forall|i: int| 0 <= i < self.items@.len() ==> #[trigger] self.items@[i].id < self.next_id
    }

    /// An empty store.
    pub fn new() -> (r: Self)
        ensures
            r.next_id == 0,
            r.items@.len() == 0,
            r.wf(),
    {
        PatchNoteHolder { next_id: 0, items: Vec::new() }
    }

    /// Identifiers bound the count: there can be at most `u32::MAX`
    /// notes before the identifier space is exhausted.
    pub proof fn lemma_count_bound(&self)
        requires
            self.wf(),
        ensures
            self.items@.len() <= u32::MAX,
    {
        if self.items@.len() > 0 {
            self.lemma_id_lower_bound(self.items@.len() - 1);
        }
    }

    proof fn lemma_id_lower_bound(&self, k: int)
        requires
            self.wf(),
            0 <= k < self.items@.len(),
        ensures
            self.items@[k].id >= k,
        decreases k,
    {
        if k > 0 {
            self.lemma_id_lower_bound(k - 1);
        }
    }

    /// Store a note under the next identifier and return a copy of
    /// it; `None` once the identifier space is exhausted.
    pub fn add(&mut self, data: String) -> (r: Option<PatchNote>)
        requires
            old(self).wf(),
        ensures
            match r {
                Some(n) => {
                    &&& n.id == old(self).next_id
                    &&& n.data@ == data@
                    &&& final(self).items@ == old(self).items@.push(
                        PatchNote { id: old(self).next_id, data },
                    )
                    &&& final(self).next_id == old(self).next_id + 1
                    &&& final(self).wf()
                },
                None => {
                    &&& old(self).next_id == u32::MAX
                    &&& *final(self) == *old(self)
                },
            },
    {
        if self.next_id == u32::MAX {
            return None;
        }
        let id = self.next_id;
        let copy = PatchNote { id, data: data.clone() };
        self.items.push(PatchNote { id, data });
        self.next_id = id + 1;
        proof {
            assert forall|i: int, j: int|
                0 <= i < j < self.items@.len() implies self.items@[i].id < self.items@[j].id by {
                if j == self.items@.len() - 1 {
                    assert(self.items@[i].id < id);
                }
            }
        }
        Some(copy)
    }

    /// Replace the text of the note with the given identifier, if it
    /// exists; reports whether it did.
    pub fn update_patch_note(&mut self, id: u32, data: String) -> (r: bool)
        requires
            old(self).wf(),
        ensures
            r == (exists|i: int|
                0 <= i < old(self).items@.len() && #[trigger] old(self).items@[i].id == id),
            final(self).items@.len() == old(self).items@.len(),
            forall|i: int|
                0 <= i < old(self).items@.len() ==> #[trigger] final(self).items@[i]
                    == (if old(self).items@[i].id == id {
                    PatchNote { id, data }
                } else {
                    old(self).items@[i]
                }),
            final(self).next_id == old(self).next_id,
            final(self).wf(),
    {
        let ghost items0 = self.items@;
        let n = self.items.len();
        let mut k: usize = 0;
        while k < n
            invariant
                n == self.items@.len(),
                k <= n,
                forall|i: int| 0 <= i < k as int ==> #[trigger] items0[i].id != id,
                self.items@ == items0,
                self.next_id == old(self).next_id,
                items0 == old(self).items@,
                old(self).wf(),
            decreases n - k,
        {
            if self.items[k].id == id {
                let e = &mut self.items[k];
                e.data = data;
                proof {
                    assert(self.items@[k as int] =~= (PatchNote { id, data }));
                    assert forall|i: int, j: int|
                        0 <= i < j < self.items@.len() implies self.items@[i].id
                        < self.items@[j].id by {
                        assert(items0[i].id < items0[j].id);
                        assert(self.items@[i].id == items0[i].id);
                        assert(self.items@[j].id == items0[j].id);
                    }
                }
                return true;
            }
            k += 1;
        }
        false
    }

    /// A copy of all notes, in identifier order.
    pub fn patch_notes(&self) -> (r: Vec<PatchNote>)
        ensures
            r@ == self.items@,
    {
        let mut r: Vec<PatchNote> = Vec::new();
        let mut k: usize = 0;
        let n = self.items.len();
        while k < n
            invariant
                n == self.items@.len(),
                k <= n,
                r@ == self.items@.take(k as int),
            decreases n - k,
        {
            let e = PatchNote { id: self.items[k].id, data: self.items[k].data.clone() };
            proof {
                assert(e == self.items@[k as int]);
                assert(self.items@.take(k as int + 1).drop_last() =~= self.items@.take(k as int));
            }
            r.push(e);
            proof {
                assert(r@ =~= self.items@.take(k as int + 1));
            }
            k += 1;
        }
        proof {
            assert(self.items@.take(n as int) =~= self.items@);
        }
        r
    }
}

} // verus!
