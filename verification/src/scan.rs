//! Collecting the files of a folder tree for upload.
use vstd::prelude::*;
use crate::error::CliError;
use crate::paths::{lemma_parts_le_total, lemma_parts_le_trans, parts_le, path_views, sorted_paths, LocalPath, Part};

verus! {

broadcast use vstd::seq_lib::group_to_multiset_ensures;

/// What a directory entry is.
#[derive(PartialEq, Eq, Structural, Debug, Clone, Copy)]
pub enum EntryKind {
    Directory,
    File,
    /// Neither a directory nor a regular file (such as a symbolic link).
    Other,
}

/// A walk over a folder tree: the directories still to be read, and the files
/// found so far.
pub struct FolderScan {
    pending: Vec<LocalPath>,
    files: Vec<LocalPath>,
}

impl FolderScan {
    /// Directories still to be read; the last one is read next.
    pub closed spec fn pending(&self) -> Seq<Seq<Part>> {
        path_views(self.pending@)
    }

    /// Regular files found so far, in the order they were found.
    pub closed spec fn files(&self) -> Seq<Seq<Part>> {
        path_views(self.files@)
    }

    /// Starts the walk of `folder`, given whether it exists and whether it is a
    /// directory.
    pub fn start<E>(folder: &LocalPath, exists: bool, is_dir: bool) -> (r: Result<
        FolderScan,
        CliError<E>,
    >)
        ensures
            !exists ==> (r matches Err(CliError::FolderMissing { folder: f }) && f@ == folder@),
            exists && !is_dir ==> (r matches Err(CliError::NotADirectory { folder: f }) && f@
                == folder@),
            exists && is_dir ==> (r matches Ok(scan) && scan.pending() == seq![folder@]
                && scan.files() == Seq::<Seq<Part>>::empty()),
    {
        if !exists {
            return Err(CliError::FolderMissing { folder: folder.duplicate() });
        }
        if !is_dir {
            return Err(CliError::NotADirectory { folder: folder.duplicate() });
        }
        let mut pending: Vec<LocalPath> = Vec::new();
        pending.push(folder.duplicate());
        let scan = FolderScan { pending, files: Vec::new() };
        assert(scan.pending() =~= seq![folder@]);
        assert(scan.files() =~= Seq::<Seq<Part>>::empty());
        Ok(scan)
    }

    /// The next directory to read, taken from the pending ones (last in, first
    /// out); `None` when the walk is over.
    pub fn next_directory(&mut self) -> (r: Option<LocalPath>)
        ensures
            final(self).files() == old(self).files(),
            old(self).pending().len() == 0 ==> r is None && final(self).pending() == old(
                self,
            ).pending(),
            old(self).pending().len() > 0 ==> (r matches Some(dir) && dir@ == old(
                self,
            ).pending().last() && final(self).pending() == old(self).pending().drop_last()),
    {
        let r = self.pending.pop();
        proof {
            if old(self).pending@.len() > 0 {
                assert(path_views(self.pending@) =~= old(self).pending().drop_last());
            }
        }
        r
    }

    /// Records one entry of the directory being read: a directory is to be
    /// read later, a regular file is collected, anything else is passed over.
    pub fn record_entry(&mut self, path: LocalPath, kind: EntryKind)
        ensures
            kind == EntryKind::Directory ==> final(self).pending() == old(self).pending().push(path@)
                && final(self).files() == old(self).files(),
            kind == EntryKind::File ==> final(self).files() == old(self).files().push(path@)
                && final(self).pending() == old(self).pending(),
            kind == EntryKind::Other ==> final(self).files() == old(self).files()
                && final(self).pending() == old(self).pending(),
    {
        match kind {
            EntryKind::Directory => {
                self.pending.push(path);
                assert(path_views(self.pending@) =~= old(self).pending().push(path@));
            },
            EntryKind::File => {
                self.files.push(path);
                assert(path_views(self.files@) =~= old(self).files().push(path@));
            },
            EntryKind::Other => {},
        }
    }

    /// The files found, in ascending path order.
    pub fn finish(self) -> (r: Vec<LocalPath>)
        ensures
            sorted_paths(path_views(r@)),
            path_views(r@).to_multiset() == self.files().to_multiset(),
    {
        sort_paths(self.files)
    }
}

/// The paths in ascending `Path` order (the order `Vec<PathBuf>::sort` gives).
pub fn sort_paths(paths: Vec<LocalPath>) -> (r: Vec<LocalPath>)
    ensures
        sorted_paths(path_views(r@)),
        path_views(r@).to_multiset() == path_views(paths@).to_multiset(),
{
    let ghost all = path_views(paths@);
    let mut rest = paths;
    let mut out: Vec<LocalPath> = Vec::new();
    assert(path_views(out@).to_multiset().add(path_views(rest@).to_multiset())
        =~= all.to_multiset()) by {
        assert(path_views(out@) =~= Seq::<Seq<Part>>::empty());
    }
    while rest.len() > 0
        invariant
            sorted_paths(path_views(out@)),
            forall|i: int, j: int|
                0 <= i < out@.len() && 0 <= j < rest@.len() ==> parts_le(
                    #[trigger] path_views(out@)[i],
                    #[trigger] path_views(rest@)[j],
                ),
            path_views(out@).to_multiset().add(path_views(rest@).to_multiset())
                == all.to_multiset(),
        decreases rest@.len(),
    {
        let ghost rv = path_views(rest@);
        let mut best: usize = 0;
        let mut k: usize = 1;
        proof {
            lemma_parts_le_total(rv[0], rv[0]);
        }
        while k < rest.len()
            invariant
                rv == path_views(rest@),
                rest@.len() > 0,
                best < rest@.len(),
                1 <= k <= rest@.len(),
                forall|j: int| 0 <= j < k ==> parts_le(rv[best as int], #[trigger] rv[j]),
            decreases rest@.len() - k,
        {
            if !rest[best].le(&rest[k]) {
                proof {
                    lemma_parts_le_total(rv[best as int], rv[k as int]);
                    assert forall|j: int| 0 <= j < k + 1 implies parts_le(
                        rv[k as int],
                        #[trigger] rv[j],
                    ) by {
                        if j < k {
                            lemma_parts_le_trans(rv[k as int], rv[best as int], rv[j]);
                        } else {
                            lemma_parts_le_total(rv[k as int], rv[k as int]);
                        }
                    }
                }
                best = k;
            }
            k = k + 1;
        }
        let ghost chosen = rv[best as int];
        let ghost out_before = path_views(out@);
        let item = rest.remove(best);
        assert(path_views(rest@) =~= rv.remove(best as int));
        out.push(item);
        assert(path_views(out@) =~= out_before.push(chosen));
        proof {
            assert forall|i: int, j: int| 0 <= i < j < path_views(out@).len() implies parts_le(
                #[trigger] path_views(out@)[i],
                #[trigger] path_views(out@)[j],
            ) by {
                if j == out_before.len() {
                    assert(rv[best as int] == chosen);
                    assert(parts_le(out_before[i], rv[best as int]));
                } else {
                    assert(path_views(out@)[i] == out_before[i]);
                    assert(path_views(out@)[j] == out_before[j]);
                }
            }
            assert forall|i: int, j: int|
                0 <= i < out@.len() && 0 <= j < rest@.len() implies parts_le(
                #[trigger] path_views(out@)[i],
                #[trigger] path_views(rest@)[j],
            ) by {
                let jj = if j < best {
                    j
                } else {
                    j + 1
                };
                assert(path_views(rest@)[j] == rv[jj]);
                if i < out_before.len() {
                    assert(path_views(out@)[i] == out_before[i]);
                    assert(parts_le(out_before[i], rv[jj]));
                } else {
                    assert(parts_le(chosen, rv[jj]));
                }
            }
            assert(rv.remove(best as int).to_multiset() == rv.to_multiset().remove(chosen));
            assert(out_before.push(chosen).to_multiset() == out_before.to_multiset().insert(chosen));
            assert(path_views(out@).to_multiset().add(path_views(rest@).to_multiset())
                =~= out_before.to_multiset().add(rv.to_multiset()));
        }
    }
    out
}

} // verus!
