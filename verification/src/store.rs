//! The server's record store, modeled record for record: each stored
//! file is an id-addressed record holding the raw 16-byte blocks, the
//! metadata (display name and wrapped key; a record without metadata
//! is invisible), and a lock marker set while a read is in progress.
//! The filesystem mirror of this model lives outside the crate; the
//! rules below are what it must follow.

use vstd::prelude::*;

verus! {

/// One stored record.
pub struct FileRecord {
    pub id: u128,
    pub name: String,
    pub key: u128,
    pub blocks: Vec<u128>,
    pub has_metadata: bool,
    pub locked: bool,
}

/// The advertised files: `(id, size in bytes, display name)` each.
pub type FileList = Vec<(u128, usize, String)>;

/// The record store.
pub struct FileManager {
    pub records: Vec<FileRecord>,
}

/// The listing of a record sequence: one entry per record with
/// metadata, in order, advertising the byte size of its block stream.
pub open spec fn spec_listing(rs: Seq<FileRecord>) -> Seq<(u128, usize, String)>
    decreases rs.len(),
{
    if rs.len() == 0 {
        Seq::empty()
    } else {
        let last = rs.last();
        spec_listing(rs.drop_last()) + (if last.has_metadata {
            seq![(last.id, (16 * last.blocks@.len()) as usize, last.name)]
        } else {
            Seq::empty()
        })
    }
}

/// How many records carry this id with their metadata present.
pub open spec fn spec_count_meta(rs: Seq<FileRecord>, id: u128) -> int
    decreases rs.len(),
{
    if rs.len() == 0 {
        0
    } else {
        spec_count_meta(rs.drop_last(), id) + (if rs.last().id == id && rs.last().has_metadata {
            1int
        } else {
            0int
        })
    }
}

/// How many listing entries carry this id.
pub open spec fn spec_count_listed(ls: Seq<(u128, usize, String)>, id: u128) -> int
    decreases ls.len(),
{
    if ls.len() == 0 {
        0
    } else {
        spec_count_listed(ls.drop_last(), id) + (if ls.last().0 == id {
            1int
        } else {
            0int
        })
    }
}

impl FileManager {
    /// Ids are unique and every block stream's byte size fits.
    pub open spec fn wf(&self) -> bool {
        &&& (forall|i: int, j: int|
            0 <= i < j < self.records@.len() ==> (#[trigger] self.records@[i].id) != (
            #[trigger] self.records@[j].id))
        &&& (forall|i: int|
            0 <= i < self.records@.len() ==> (#[trigger] self.records@[i].blocks@.len()) * 16
                <= usize::MAX)
    }

    /// An empty store.
    pub fn new() -> (r: Self)
        ensures
            r.wf(),
            r.records@.len() == 0,
    {
        FileManager { records: Vec::new() }
    }

    /// The startup sweep: clear the lock of every record whose
    /// metadata is present; a record without metadata keeps its lock.
    pub fn init_cleanup(&mut self)
        requires
            old(self).wf(),
        ensures
            final(self).wf(),
            final(self).records@.len() == old(self).records@.len(),
            forall|i: int|
                0 <= i < old(self).records@.len() ==> {
                    let o = old(self).records@[i];
                    let n = #[trigger] final(self).records@[i];
                    n.id == o.id && n.name == o.name && n.key == o.key && n.blocks@ == o.blocks@
                        && n.has_metadata == o.has_metadata && n.locked == (if o.has_metadata {
                        false
                    } else {
                        o.locked
                    })
                },
    {
        let n = self.records.len();
        for i in 0..n
            invariant
                n == self.records@.len() == old(self).records@.len(),
                self.wf(),
                forall|j: int|
                    i <= j < n ==> #[trigger] self.records@[j] == old(self).records@[j],
                forall|j: int|
                    0 <= j < i ==> {
                        let o = old(self).records@[j];
                        let nr = #[trigger] self.records@[j];
                        nr.id == o.id && nr.name == o.name && nr.key == o.key && nr.blocks@
                            == o.blocks@ && nr.has_metadata == o.has_metadata && nr.locked == (
                        if o.has_metadata {
                            false
                        } else {
                            o.locked
                        })
                    },
        {
            if self.records[i].has_metadata {
                let rec = &mut self.records[i];
                rec.locked = false;
            }
        }
    }

    /// Save a file under a fresh random id, metadata written last. A
    /// colliding id (never seen in practice) replaces that record.
    /// Returns the id the record is stored under.
    pub fn save_file(&mut self, name: String, key: u128, contents: Vec<u128>) -> (r: u128)
        requires
            old(self).wf(),
            contents@.len() * 16 <= usize::MAX,
        ensures
            final(self).wf(),
            exists|i: int|
                0 <= i < final(self).records@.len() && {
                    let rec = #[trigger] final(self).records@[i];
                    rec.id == r && rec.name == name && rec.key == key && rec.blocks@ == contents@
                        && rec.has_metadata && !rec.locked
                },
            final(self).records@.len() <= old(self).records@.len() + 1,
            forall|i: int|
                0 <= i < old(self).records@.len() && (#[trigger] old(self).records@[i].id) != r
                    ==> final(self).records@[i] == old(self).records@[i],
    {
        let id = crate::rng::random_u128();
        let record = FileRecord {
            id,
            name,
            key,
            blocks: contents,
            has_metadata: true,
            locked: false,
        };
        let n = self.records.len();
        let mut found: Option<usize> = None;
        for i in 0..n
            invariant
                n == self.records@.len(),
                found is Some ==> 0 <= found->0 < n && self.records@[found->0 as int].id == id,
                found is None ==> forall|j: int|
                    0 <= j < i ==> (#[trigger] self.records@[j].id) != id,
        {
            if self.records[i].id == id && found.is_none() {
                found = Some(i);
            }
        }
        match found {
            Some(i) => {
                self.records[i] = record;
                proof {
                    assert(self.records@[i as int].id == id);
                }
            },
            None => {
                self.records.push(record);
                proof {
                    assert(self.records@[self.records@.len() - 1].id == id);
                }
            },
        }
        id
    }

    /// The listing: every record with metadata, as `(id, byte size,
    /// name)`.
    pub fn get_file_list(&self) -> (r: FileList)
        requires
            self.wf(),
        ensures
            r@ == spec_listing(self.records@),
    {
        let mut out: FileList = Vec::new();
        let n = self.records.len();
        for i in 0..n
            invariant
                n == self.records@.len(),
                self.wf(),
                out@ == spec_listing(self.records@.take(i as int)),
        {
            let rec = &self.records[i];
            if rec.has_metadata {
                out.push((rec.id, 16 * rec.blocks.len(), rec.name.clone()));
            }
            proof {
                assert(self.records@.take(i + 1).drop_last() =~= self.records@.take(i as int));
                assert(self.records@.take(i + 1).last() == self.records@[i as int]);
                assert(out@ =~= spec_listing(self.records@.take(i + 1)));
            }
        }
        proof {
            assert(self.records@.take(n as int) =~= self.records@);
        }
        out
    }

    /// Read a record: the lock is set for the duration of the read
    /// and cleared on success. A missing record fails; a record
    /// without metadata fails after the lock was written, leaving it
    /// locked — exactly the stale lock the startup sweep clears.
    pub fn get_file(&mut self, id: u128) -> (r: Result<(Vec<u128>, u128), ()>)
        requires
            old(self).wf(),
        ensures
            final(self).wf(),
            r is Ok <==> exists|i: int|
                0 <= i < old(self).records@.len() && (#[trigger] old(self).records@[i].id) == id
                    && old(self).records@[i].has_metadata,
            r is Ok ==> exists|i: int|
                0 <= i < old(self).records@.len() && {
                    let rec = #[trigger] old(self).records@[i];
                    rec.id == id && r->Ok_0.0@ == rec.blocks@ && r->Ok_0.1 == rec.key
                        && final(self).records@[i] == FileRecord { locked: false, ..rec }
                },
            final(self).records@.len() == old(self).records@.len(),
            forall|i: int|
                0 <= i < old(self).records@.len() && (#[trigger] old(self).records@[i].id) != id
                    ==> final(self).records@[i] == old(self).records@[i],
    {
        let n = self.records.len();
        let mut found: Option<usize> = None;
        for i in 0..n
            invariant
                n == self.records@.len(),
                self.wf(),
                found is Some ==> 0 <= found->0 < n && self.records@[found->0 as int].id == id,
                found is None ==> forall|j: int|
                    0 <= j < i ==> (#[trigger] self.records@[j].id) != id,
        {
            if self.records[i].id == id && found.is_none() {
                found = Some(i);
            }
        }
        let i = match found {
            Some(i) => i,
            None => {
                return Err(());
            },
        };
        if !self.records[i].has_metadata {
            let rec = &mut self.records[i];
            rec.locked = true;
            return Err(());
        }
        let rec = &mut self.records[i];
        rec.locked = false;
        let rec = &self.records[i];
        let mut blocks: Vec<u128> = Vec::new();
        let m = rec.blocks.len();
        for k in 0..m
            invariant
                m == rec.blocks@.len(),
                blocks@ == rec.blocks@.take(k as int),
        {
            blocks.push(rec.blocks[k]);
            proof {
                assert(blocks@ =~= rec.blocks@.take(k + 1));
            }
        }
        proof {
            assert(blocks@ =~= rec.blocks@);
        }
        Ok((blocks, rec.key))
    }

    /// Delete a record: a locked record is silently left in place (a
    /// read is in progress); otherwise the record, if present, is
    /// removed. Always reports success, as the underlying removal's
    /// errors are swallowed.
    pub fn delete_file(&mut self, id: u128) -> (r: Result<(), ()>)
        requires
            old(self).wf(),
        ensures
            final(self).wf(),
            r is Ok,
            (forall|i: int|
                0 <= i < old(self).records@.len() ==> (#[trigger] old(self).records@[i].id)
                    != id) ==> final(self).records@ == old(self).records@,
            forall|i: int|
                0 <= i < old(self).records@.len() && (#[trigger] old(self).records@[i].id) == id
                    ==> final(self).records@ == (if old(self).records@[i].locked {
                    old(self).records@
                } else {
                    old(self).records@.remove(i)
                }),
    {
        let n = self.records.len();
        let mut found: Option<usize> = None;
        for i in 0..n
            invariant
                n == self.records@.len(),
                self.wf(),
                found is Some ==> 0 <= found->0 < n && self.records@[found->0 as int].id == id,
                found is None ==> forall|j: int|
                    0 <= j < i ==> (#[trigger] self.records@[j].id) != id,
        {
            if self.records[i].id == id && found.is_none() {
                found = Some(i);
            }
        }
        match found {
            None => Ok(()),
            Some(i) => {
                if self.records[i].locked {
                    Ok(())
                } else {
                    let ghost old_rs = self.records@;
                    let removed = self.records.remove(i);
                    proof {
                        assert forall|a: int, b: int|
                            0 <= a < b < self.records@.len() implies (
                        #[trigger] self.records@[a].id) != (#[trigger] self.records@[b].id) by {
                            assert(self.records@[a] == (if a < i {
                                old_rs[a]
                            } else {
                                old_rs[a + 1]
                            }));
                            assert(self.records@[b] == (if b < i {
                                old_rs[b]
                            } else {
                                old_rs[b + 1]
                            }));
                        }
                    }
                    Ok(())
                }
            },
        }
    }
}

/// The listing advertises an id as often as a record with metadata
/// carries it.
proof fn lemma_listing_counts(rs: Seq<FileRecord>, id: u128)
    ensures
        spec_count_listed(spec_listing(rs), id) == spec_count_meta(rs, id),
    decreases rs.len(),
{
    if rs.len() > 0 {
        lemma_listing_counts(rs.drop_last(), id);
        let dl = spec_listing(rs.drop_last());
        if rs.last().has_metadata {
            let e = (rs.last().id, (16 * rs.last().blocks@.len()) as usize, rs.last().name);
            assert((dl + seq![e]).drop_last() =~= dl);
        } else {
            assert(dl + Seq::<(u128, usize, String)>::empty() =~= dl);
        }
    }
}

/// No record carries the id: nothing with metadata counts.
proof fn lemma_count_meta_zero(rs: Seq<FileRecord>, id: u128)
    requires
        forall|j: int| 0 <= j < rs.len() ==> (#[trigger] rs[j].id) != id,
    ensures
        spec_count_meta(rs, id) == 0,
    decreases rs.len(),
{
    if rs.len() > 0 {
        assert(rs.last() == rs[rs.len() - 1]);
        lemma_count_meta_zero(rs.drop_last(), id);
    }
}

/// With unique ids, a record with metadata is counted exactly once.
proof fn lemma_count_meta_one(rs: Seq<FileRecord>, i: int)
    requires
        forall|a: int, b: int|
            0 <= a < b < rs.len() ==> (#[trigger] rs[a].id) != (#[trigger] rs[b].id),
        0 <= i < rs.len(),
        rs[i].has_metadata,
    ensures
        spec_count_meta(rs, rs[i].id) == 1,
    decreases rs.len(),
{
    let id = rs[i].id;
    if i == rs.len() - 1 {
        lemma_count_meta_zero(rs.drop_last(), id);
    } else {
        lemma_count_meta_one(rs.drop_last(), i);
        assert(rs.last() == rs[rs.len() - 1]);
    }
}

/// A record with metadata appears in the listing with its byte size
/// and name.
proof fn lemma_listing_member(rs: Seq<FileRecord>, i: int)
    requires
        0 <= i < rs.len(),
        rs[i].has_metadata,
    ensures
        exists|j: int|
            0 <= j < spec_listing(rs).len() && (#[trigger] spec_listing(rs)[j]) == (
                rs[i].id,
                (16 * rs[i].blocks@.len()) as usize,
                rs[i].name,
            ),
    decreases rs.len(),
{
    if i == rs.len() - 1 {
        let e = (rs[i].id, (16 * rs[i].blocks@.len()) as usize, rs[i].name);
        assert(spec_listing(rs)[spec_listing(rs).len() - 1] == e);
    } else {
        lemma_listing_member(rs.drop_last(), i);
        let e = (rs[i].id, (16 * rs[i].blocks@.len()) as usize, rs[i].name);
        let j = choose|j: int|
            0 <= j < spec_listing(rs.drop_last()).len() && (#[trigger] spec_listing(
                rs.drop_last(),
            )[j]) == e;
        assert(spec_listing(rs)[j] == e);
    }
}

/// Saved-file visibility: in a well-formed store, a record whose
/// metadata is present — such as the one `save_file` just wrote — is
/// advertised by exactly one listing entry, and that entry carries
/// its id, its byte size and its display name.
pub proof fn lemma_saved_file_listed(fm: FileManager, i: int)
    requires
        fm.wf(),
        0 <= i < fm.records@.len(),
        fm.records@[i].has_metadata,
    ensures
        spec_count_listed(spec_listing(fm.records@), fm.records@[i].id) == 1,
        exists|j: int|
            0 <= j < spec_listing(fm.records@).len() && (#[trigger] spec_listing(
                fm.records@,
            )[j]) == (
                fm.records@[i].id,
                (16 * fm.records@[i].blocks@.len()) as usize,
                fm.records@[i].name,
            ),
{
    lemma_listing_counts(fm.records@, fm.records@[i].id);
    lemma_count_meta_one(fm.records@, i);
    lemma_listing_member(fm.records@, i);
}

} // verus!
