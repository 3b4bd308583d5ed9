//! The paste table: the storage collaborator behind the paste flows.

use vstd::prelude::*;

use crate::errors::StoreError;

verus! {

/// A stored paste row.
#[derive(Debug)]
pub struct Paste {
    pub id: i32,
    pub user_id: i32,
    pub data: String,
}

/// Mathematical content of a paste row.
#[verifier::ext_equal]
pub ghost struct PasteModel {
    pub id: i32,
    pub user_id: i32,
    pub data: Seq<char>,
}

impl View for Paste {
    type V = PasteModel;

    open spec fn view(&self) -> PasteModel {
        PasteModel { id: self.id, user_id: self.user_id, data: self.data@ }
    }
}

impl DeepView for Paste {
    type V = PasteModel;

    open spec fn deep_view(&self) -> PasteModel {
        self.view()
    }
}

impl Paste {
    /// Copy the row.
    pub fn duplicate(&self) -> (r: Paste)
        ensures
            r@ == self@,
    {
        Paste { id: self.id, user_id: self.user_id, data: self.data.clone() }
    }
}

/// What a caller supplies to create a paste.
pub struct NewPaste {
    pub user_id: i32,
    pub data: String,
}

/// The in-memory paste table.
pub struct PasteStore {
    pub pastes: Vec<Paste>,
    pub next_id: i32,
}

/// The first index holding the given paste id.
pub open spec fn find_paste(rows: Seq<PasteModel>, id: i32) -> Option<int>
    decreases rows.len(),
{
    if rows.len() == 0 {
        None
    } else if rows[0].id == id {
        Some(0)
    } else {
        match find_paste(rows.drop_first(), id) {
            None => None,
            Some(i) => Some(i + 1),
        }
    }
}

/// The rows whose owner is the given user, in table order.
pub open spec fn pastes_of_user(rows: Seq<PasteModel>, user_id: i32) -> Seq<PasteModel> {
    rows.filter(|p: PasteModel| p.user_id == user_id)
}

/// Pointwise reading of the rows of a `Vec<Paste>`.
pub proof fn lemma_paste_rows_view(v: Vec<Paste>)
    ensures
        v.deep_view().len() == v@.len(),
        forall|i: int| 0 <= i < v@.len() ==> #[trigger] v.deep_view()[i] == v@[i]@,
{
}

impl PasteStore {
    /// The rows the table holds.
    pub open spec fn rows(&self) -> Seq<PasteModel> {
        self.pastes.deep_view()
    }

    /// Table invariant: ids are unique and stay below the allocator.
    pub open spec fn wf(&self) -> bool {
        &&& forall|i: int, j: int|
            0 <= i < j < self.rows().len() ==> self.rows()[i].id != self.rows()[j].id
        &&& forall|i: int| 0 <= i < self.rows().len() ==> #[trigger] self.rows()[i].id < self.next_id
    }

    /// An empty table whose first paste gets id 1.
    pub fn new() -> (r: PasteStore)
        ensures
            r.wf(),
            r.rows() == Seq::<PasteModel>::empty(),
            r.next_id == 1,
    {
        let r = PasteStore { pastes: Vec::new(), next_id: 1 };
        proof {
            assert(r.rows() =~= Seq::<PasteModel>::empty());
        }
        r
    }

    /// Find the position of a paste id.
    fn index_of_id(&self, id: i32) -> (r: Option<usize>)
        ensures
            match r {
                Some(ix) => find_paste(self.rows(), id) == Some(ix as int) && ix
                    < self.rows().len() && self.rows()[ix as int].id == id,
                None => find_paste(self.rows(), id) is None,
            },
    {
        proof {
            lemma_paste_rows_view(self.pastes);
            assert(self.rows().subrange(0, self.rows().len() as int) =~= self.rows());
        }
        let mut i: usize = 0;
        while i < self.pastes.len()
            invariant
                i <= self.pastes@.len(),
                self.rows().len() == self.pastes@.len(),
                forall|k: int| 0 <= k < self.pastes@.len() ==> #[trigger] self.rows()[k]
                    == self.pastes@[k]@,
                forall|k: int| 0 <= k < i ==> #[trigger] self.rows()[k].id != id,
                find_paste(self.rows(), id) == match find_paste(
                    self.rows().subrange(i as int, self.rows().len() as int),
                    id,
                ) {
                    None => None::<int>,
                    Some(j) => Some(j + i),
                },
            decreases self.pastes@.len() - i,
        {
            let ghost cur = self.rows().subrange(i as int, self.rows().len() as int);
            if self.pastes[i].id == id {
                proof {
                    assert(cur[0].id == id);
                }
                return Some(i);
            }
            proof {
                assert(cur[0].id != id);
                assert(cur.drop_first() =~= self.rows().subrange(
                    i + 1 as int,
                    self.rows().len() as int,
                ));
            }
            i = i + 1;
        }
        proof {
            assert(self.rows().subrange(i as int, self.rows().len() as int).len() == 0);
        }
        None
    }

    /// Create a paste owned by `user_id`.
    pub fn create_paste(&mut self, paste: &NewPaste) -> (r: Result<Paste, StoreError>)
        requires
            old(self).wf(),
            old(self).next_id < 0x7fff_ffff,
        ensures
            final(self).wf(),
            r matches Ok(p) && p@ == (PasteModel {
                id: old(self).next_id,
                user_id: paste.user_id,
                data: paste.data@,
            }) && final(self).rows() == old(self).rows().push(p@)
                && final(self).next_id == old(self).next_id + 1,
    {
        let row = Paste { id: self.next_id, user_id: paste.user_id, data: paste.data.clone() };
        let out = row.duplicate();
        let ghost old_rows = self.rows();
        self.pastes.push(row);
        self.next_id = self.next_id + 1;
        proof {
            lemma_paste_rows_view(self.pastes);
            assert(self.rows() =~= old_rows.push(out@));
        }
        Ok(out)
    }

    /// Overwrite the data of the paste that holds the given row's id; the
    /// owner recorded in the table is kept.
    pub fn update_paste(&mut self, paste: Paste) -> (r: Result<Paste, StoreError>)
        requires
            old(self).wf(),
        ensures
            final(self).wf(),
            final(self).next_id == old(self).next_id,
            match r {
                Ok(p) => find_paste(old(self).rows(), paste.id) matches Some(ix) && p@
                    == (PasteModel {
                    id: old(self).rows()[ix].id,
                    user_id: old(self).rows()[ix].user_id,
                    data: paste.data@,
                }) && final(self).rows() == old(self).rows().update(ix, p@),
                Err(e) => find_paste(old(self).rows(), paste.id) is None && e is NotFound
                    && final(self).rows() == old(self).rows(),
            },
    {
        proof {
            lemma_paste_rows_view(self.pastes);
        }
        let ix = match self.index_of_id(paste.id) {
            Some(ix) => ix,
            None => {
                return Err(StoreError::NotFound);
            },
        };
        let row = Paste {
            id: self.pastes[ix].id,
            user_id: self.pastes[ix].user_id,
            data: paste.data,
        };
        let out = row.duplicate();
        let ghost old_rows = self.rows();
        self.pastes[ix] = row;
        proof {
            lemma_paste_rows_view(self.pastes);
            assert(self.rows() =~= old_rows.update(ix as int, out@));
        }
        Ok(out)
    }

    /// Fetch a paste by id; `NotFound` when no row holds it.
    pub fn get_paste_by_id(&self, id: i32) -> (r: Result<Paste, StoreError>)
        ensures
            match r {
                Ok(p) => find_paste(self.rows(), id) matches Some(ix) && p@ == self.rows()[ix],
                Err(e) => find_paste(self.rows(), id) is None && e is NotFound,
            },
    {
        match self.index_of_id(id) {
            Some(ix) => Ok(self.pastes[ix].duplicate()),
            None => Err(StoreError::NotFound),
        }
    }

    /// The first twenty pastes, in table order.
    pub fn get_pastes(&self) -> (r: Vec<Paste>)
        ensures
            r.deep_view() == (if self.rows().len() <= 20 {
                self.rows()
            } else {
                self.rows().take(20)
            }),
    {
        proof {
            lemma_paste_rows_view(self.pastes);
        }
        let mut out: Vec<Paste> = Vec::new();
        let mut i: usize = 0;
        let n = if self.pastes.len() <= 20 {
            self.pastes.len()
        } else {
            20
        };
        while i < n
            invariant
                i <= n,
                n <= self.pastes@.len(),
                n == (if self.pastes@.len() <= 20 {
                    self.pastes@.len() as int
                } else {
                    20int
                }),
                self.rows().len() == self.pastes@.len(),
                forall|k: int| 0 <= k < self.pastes@.len() ==> #[trigger] self.rows()[k]
                    == self.pastes@[k]@,
                out@.len() == i,
                out.deep_view() == self.rows().take(i as int),
            decreases n - i,
        {
            let ghost before = out.deep_view();
            out.push(self.pastes[i].duplicate());
            i = i + 1;
            proof {
                lemma_paste_rows_view(out);
                assert(out.deep_view().len() == i);
                assert forall|k: int| 0 <= k < i implies out.deep_view()[k] == self.rows().take(
                    i as int,
                )[k] by {
                    if k < i - 1 {
                        assert(out.deep_view()[k] == before[k]);
                    }
                }
                assert(out.deep_view() =~= self.rows().take(i as int));
            }
        }
        proof {
            if self.rows().len() <= 20 {
                assert(self.rows().take(n as int) =~= self.rows());
            }
        }
        out
    }

    /// The first twenty pastes owned by `user_id`, in table order.
    #[verifier::loop_isolation(false)]
    pub fn get_pastes_by_user_id(&self, user_id: i32) -> (r: Vec<Paste>)
        ensures
            r.deep_view() == (if pastes_of_user(self.rows(), user_id).len() <= 20 {
                pastes_of_user(self.rows(), user_id)
            } else {
                pastes_of_user(self.rows(), user_id).take(20)
            }),
    {
        broadcast use vstd::seq_lib::group_filter_ensures, Seq::lemma_filter_push;

        proof {
            lemma_paste_rows_view(self.pastes);
            assert(self.rows().take(0int).filter(|p: PasteModel| p.user_id == user_id) =~= Seq::<
                PasteModel,
            >::empty());
        }
        let mut out: Vec<Paste> = Vec::new();
        let mut i: usize = 0;
        while i < self.pastes.len() && out.len() < 20
            invariant
                i <= self.pastes@.len(),
                out@.len() <= 20,
                out.deep_view() == (if pastes_of_user(self.rows().take(i as int), user_id).len()
                    <= 20 {
                    pastes_of_user(self.rows().take(i as int), user_id)
                } else {
                    pastes_of_user(self.rows().take(i as int), user_id).take(20)
                }),
                out@.len() < 20 ==> out.deep_view() == pastes_of_user(
                    self.rows().take(i as int),
                    user_id,
                ),
            decreases self.pastes@.len() - i,
        {
            let ghost before = out.deep_view();
            let ghost prev = self.rows().take(i as int);
            if self.pastes[i].user_id == user_id {
                out.push(self.pastes[i].duplicate());
            }
            i = i + 1;
            proof {
                lemma_paste_rows_view(out);
                assert(self.rows().take(i as int) =~= prev.push(self.rows()[i - 1]));
                assert(prev.push(self.rows()[i - 1]).filter(|p: PasteModel| p.user_id == user_id)
                    =~= (if self.rows()[i - 1].user_id == user_id {
                    prev.filter(|p: PasteModel| p.user_id == user_id).push(self.rows()[i - 1])
                } else {
                    prev.filter(|p: PasteModel| p.user_id == user_id)
                }));
                if self.pastes@[i - 1]@.user_id == user_id && before.len() < 20 {
                    assert(out.deep_view() =~= before.push(self.rows()[i - 1]));
                }
            }
        }
        proof {
            if i == self.pastes@.len() {
                assert(self.rows().take(i as int) =~= self.rows());
            } else {
                assert(out@.len() == 20);
                lemma_filter_prefix_of(self.rows(), i as int, user_id);
                let fi = pastes_of_user(self.rows().take(i as int), user_id);
                let fall = pastes_of_user(self.rows(), user_id);
                assert(fi.len() >= 20);
                assert(fall.len() >= fi.len());
                assert(fi.take(20) =~= fall.take(20)) by {
                    assert forall|k: int| 0 <= k < 20 implies fi.take(20)[k] == fall.take(
                        20,
                    )[k] by {
                        assert(fi[k] == fall.take(fi.len() as int)[k]);
                    }
                }
                if fi.len() <= 20 {
                    assert(fi.take(20) =~= fi);
                }
            }
        }
        out
    }

    /// Delete the paste with the given id; the count of rows removed.
    pub fn delete_paste(&mut self, id: i32) -> (r: usize)
        requires
            old(self).wf(),
        ensures
            final(self).wf(),
            final(self).next_id == old(self).next_id,
            match find_paste(old(self).rows(), id) {
                None => r == 0 && final(self).rows() == old(self).rows(),
                Some(ix) => r == 1 && final(self).rows() == old(self).rows().remove(ix),
            },
    {
        proof {
            lemma_paste_rows_view(self.pastes);
        }
        let ix = match self.index_of_id(id) {
            Some(ix) => ix,
            None => {
                return 0;
            },
        };
        let ghost old_rows = self.rows();
        self.pastes.remove(ix);
        proof {
            lemma_paste_rows_view(self.pastes);
            assert(self.rows() =~= old_rows.remove(ix as int));
        }
        1
    }
}

/// The filtered prefix is a prefix of the filtered whole.
proof fn lemma_filter_prefix_of(rows: Seq<PasteModel>, i: int, user_id: i32)
    requires
        0 <= i <= rows.len(),
    ensures
        pastes_of_user(rows, user_id).len() >= pastes_of_user(rows.take(i), user_id).len(),
        pastes_of_user(rows, user_id).take(pastes_of_user(rows.take(i), user_id).len() as int)
            == pastes_of_user(rows.take(i), user_id),
    decreases rows.len() - i,
{
    broadcast use vstd::seq_lib::group_filter_ensures, Seq::lemma_filter_push;

    if i == rows.len() {
        assert(rows.take(i) =~= rows);
        assert(pastes_of_user(rows, user_id).take(pastes_of_user(rows, user_id).len() as int)
            =~= pastes_of_user(rows, user_id));
    } else {
        assert(rows.take(i + 1) =~= rows.take(i).push(rows[i]));
        assert(rows.take(i).push(rows[i]).filter(|p: PasteModel| p.user_id == user_id) =~= (if rows[
            i
        ].user_id == user_id {
            rows.take(i).filter(|p: PasteModel| p.user_id == user_id).push(rows[i])
        } else {
            rows.take(i).filter(|p: PasteModel| p.user_id == user_id)
        }));
        lemma_filter_prefix_of(rows, i + 1, user_id);
        let fi = pastes_of_user(rows.take(i), user_id);
        let fi1 = pastes_of_user(rows.take(i + 1), user_id);
        assert(pastes_of_user(rows, user_id).take(fi1.len() as int) == fi1);
        if rows[i].user_id == user_id {
            assert(fi =~= fi1.take(fi.len() as int));
            assert(pastes_of_user(rows, user_id).take(fi.len() as int) =~= fi1.take(
                fi.len() as int,
            ));
        }
    }
}

} // verus!
