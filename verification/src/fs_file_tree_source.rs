//! [`FileTreeSource`] over a [`FileSystem`]: walks every directory under a
//! root, recording each entry by its root-relative, forward-slash path.

use std::path::{Path, PathBuf};

use vstd::prelude::*;

use crate::file_system::{DirEntry, FileSystem, FileSystemError};
use crate::file_tree::{EntryKind, FileTreeSnapshot};
use crate::fs_path::{
    as_path, component_texts, components, joined_path, owned_path, path_join, strip_prefix,
    stripped_path, to_path_buf,
};
use crate::ports::{FileTreeSource, SourceError};
use crate::text::{join_texts, joined, texts};

verus! {

/// The most directories one walk lists.
pub const WALK_LIMIT: u64 = 0xffff_ffff_ffff_ffffu64;

/// What is left of `path` once `root` is taken off its front, or all of
/// `path` when it is not under `root`.
pub open spec fn relative_to(root: &Path, path: &Path) -> PathBuf {
    match stripped_path(path, root) {
        Some(rest) => rest,
        None => owned_path(path),
    }
}

/// The key a snapshot of `root` records `path` under: the components of
/// `path` relative to `root`, joined by `/` whatever the platform's
/// separator.
pub open spec fn relative_key(root: &Path, path: &Path) -> Seq<char> {
    joined(component_texts(relative_to(root, path)), "/"@)
}

/// Taking one listed entry `e` of `dir`, with the recorded tree going from
/// `t0` to `t1` and the listings to spare from `l0` to `l1` (fewer than
/// the walk's `budget`): a file is recorded under its key relative to
/// `root`; a directory is recorded under its key, then walked.
pub open spec fn entry_step<F: FileSystem>(
    fs: F,
    root: &Path,
    dir: &Path,
    e: DirEntry,
    t0: Map<Seq<char>, EntryKind>,
    t1: Map<Seq<char>, EntryKind>,
    l0: nat,
    l1: nat,
    budget: nat,
) -> bool
    decreases budget, 0nat,
{
    l0 < budget && exists|p: &Path|
        #![trigger owned_path(p)]
        owned_path(p) == joined_path(dir, e.name@) && match e.kind {
            EntryKind::File => t1 == t0.insert(relative_key(root, p), EntryKind::File) && l1 == l0,
            EntryKind::Directory => l0 > 0 && walk_trace(
                fs,
                root,
                p,
                t0.insert(relative_key(root, p), EntryKind::Directory),
                t1,
                l0,
                l1,
            ),
        }
}

/// The listing `entries` of `dir` taken in order: `trees` are the recorded
/// trees and `lefts` the listings to spare before each entry and after the
/// last.
pub open spec fn listing_walked<F: FileSystem>(
    fs: F,
    root: &Path,
    dir: &Path,
    entries: Seq<DirEntry>,
    trees: Seq<Map<Seq<char>, EntryKind>>,
    lefts: Seq<nat>,
    budget: nat,
) -> bool
    decreases budget, 1nat,
{
    &&& trees.len() == entries.len() + 1
    &&& lefts.len() == entries.len() + 1
    &&& forall|i: int|
        0 <= i < entries.len() ==> entry_step(
            fs,
            root,
            dir,
            #[trigger] entries[i],
            trees[i],
            trees[i + 1],
            lefts[i],
            lefts[i + 1],
            budget,
        )
}

/// The walk [`walk_trace`] describes, with its listing `entries` of `dir`
/// and the recorded trees and listings to spare along it.
pub open spec fn walked_with<F: FileSystem>(
    fs: F,
    root: &Path,
    dir: &Path,
    before: Map<Seq<char>, EntryKind>,
    after: Map<Seq<char>, EntryKind>,
    budget: nat,
    left: nat,
    entries: Vec<DirEntry>,
    trees: Seq<Map<Seq<char>, EntryKind>>,
    lefts: Seq<nat>,
) -> bool
    decreases budget, 2nat,
{
    &&& fs.lists(dir, Ok(entries))
    &&& listing_walked(fs, root, dir, entries@, trees, lefts, budget)
    &&& trees[0] == before
    &&& lefts[0] == budget - 1
    &&& trees.last() == after
    &&& lefts.last() == left
}

/// A walk of `dir` under `root` that began with the recorded tree `before`
/// and `budget` listings allowed, and ended with `after` and `left` to
/// spare: listing `dir` took one, the filesystem gave a listing of `dir`,
/// and its entries were taken in order, as [`entry_step`] describes.
pub open spec fn walk_trace<F: FileSystem>(
    fs: F,
    root: &Path,
    dir: &Path,
    before: Map<Seq<char>, EntryKind>,
    after: Map<Seq<char>, EntryKind>,
    budget: nat,
    left: nat,
) -> bool
    decreases budget, 3nat,
{
    budget > 0 && exists|
        entries: Vec<DirEntry>,
        trees: Seq<Map<Seq<char>, EntryKind>>,
        lefts: Seq<nat>,
    |
        #![trigger fs.lists(dir, Ok(entries)), trees.last(), lefts.last()]
        walked_with(fs, root, dir, before, after, budget, left, entries, trees, lefts)
}

/// A walk of `dir` under `root`, begun with the recorded tree `before` and
/// `budget` listings allowed, that failed with `e`: the filesystem refused
/// to list `dir`, with `e`'s message; or it listed `dir`, the entries
/// before some directory entry were taken as [`entry_step`] describes, and
/// at that directory either no listing was left to spare (the walk limit)
/// or the walk below it failed with `e`.
pub open spec fn walk_failed<F: FileSystem>(
    fs: F,
    root: &Path,
    dir: &Path,
    before: Map<Seq<char>, EntryKind>,
    budget: nat,
    e: SourceError,
) -> bool
    decreases budget,
{
    budget > 0 && ((exists|fe: FileSystemError| #[trigger] fs.lists(dir, Err(fe)) && e.0@ == fe.0@)
        || exists|
        entries: Vec<DirEntry>,
        trees: Seq<Map<Seq<char>, EntryKind>>,
        lefts: Seq<nat>,
        j: int,
    |
        #![trigger listing_walked(fs, root, dir, entries@.take(j), trees, lefts, budget), entries@[j]]
        fs.lists(dir, Ok(entries)) && 0 <= j < entries@.len() && trees[0] == before && lefts[0]
            == budget - 1 && listing_walked(fs, root, dir, entries@.take(j), trees, lefts, budget)
            && entries@[j].kind == EntryKind::Directory && exists|p: &Path|
            #![trigger owned_path(p)]
            owned_path(p) == joined_path(dir, entries@[j].name@) && ((lefts.last() == 0
                && e.0@ == WALK_LIMIT_MESSAGE@) || (0 < lefts.last() < budget && walk_failed(
                fs,
                root,
                p,
                trees.last().insert(relative_key(root, p), EntryKind::Directory),
                lefts.last(),
                e,
            ))))
}

/// A whole walk from `root`, begun with nothing recorded and
/// [`WALK_LIMIT`] listings allowed, that ended with `tree` recorded.
pub open spec fn walked_from_root<F: FileSystem>(fs: F, root: &Path, tree: Map<Seq<char>, EntryKind>) -> bool {
    exists|left: nat|
        #[trigger] walk_trace(
            fs,
            root,
            root,
            Map::<Seq<char>, EntryKind>::empty(),
            tree,
            WALK_LIMIT as nat,
            left,
        )
}

/// The message of a walk that reached [`WALK_LIMIT`].
pub const WALK_LIMIT_MESSAGE: &'static str = "too many directories to walk";

/// `path` relative to `root`, its components joined by `/` whatever the
/// platform's separator.
pub fn relative_forward_slash(root: &Path, path: &Path) -> (r: String)
    ensures
        r@ == relative_key(root, path),
{
    let relative = match strip_prefix(path, root) {
        Some(rest) => rest,
        None => to_path_buf(path),
    };
    let parts = components(&relative);
    assert(texts(parts@) == component_texts(relative));
    join_texts(&parts, "/")
}

/// A file tree read by walking a [`FileSystem`].
pub struct FsFileTreeSource<F: FileSystem> {
    fs: F,
}

impl<F: FileSystem> FsFileTreeSource<F> {
    /// A source walking `fs`.
    pub fn new(fs: F) -> (r: Self)
        ensures
            r.file_system() == fs,
    {
        FsFileTreeSource { fs }
    }

    /// The filesystem this source walks.
    pub closed spec fn file_system(self) -> F {
        self.fs
    }

    /// Records every entry under `dir` in `snapshot`, by its path relative
    /// to `root` and with its listed kind, descending into each directory
    /// as it is met. Lists at most `budget` directories, `dir` included; on
    /// success, returns how many more it could have listed.
    fn walk(&self, root: &Path, dir: &Path, snapshot: &mut FileTreeSnapshot, budget: u64) -> (r:
        Result<u64, SourceError>)
        requires
            budget > 0,
        ensures
            r matches Ok(left) ==> left < budget && walk_trace(
                self.fs,
                root,
                dir,
                old(snapshot)@,
                final(snapshot)@,
                budget as nat,
                left as nat,
            ),
            r matches Err(e) ==> walk_failed(self.fs, root, dir, old(snapshot)@, budget as nat, e),
        decreases budget,
    {
        let ghost start = snapshot@;
        let listing = self.fs.list_dir(dir);
        let entries = match listing {
            Ok(entries) => entries,
            Err(err) => {
                let e = SourceError(err.to_string());
                assert(self.fs.lists(dir, Err(err)));
                return Err(e);
            },
        };
        assert(self.fs.lists(dir, Ok(entries)));
        let mut left: u64 = budget - 1;
        let ghost mut trees: Seq<Map<Seq<char>, EntryKind>> = seq![start];
        let ghost mut lefts: Seq<nat> = seq![(budget - 1) as nat];
        let mut i: usize = 0;
        assert(entries@.take(0) =~= Seq::<DirEntry>::empty());
        while i < entries.len()
            invariant
                self.fs.lists(dir, Ok(entries)),
                budget > 0,
                i <= entries@.len(),
                left < budget,
                start == old(snapshot)@,
                trees.len() == i + 1,
                lefts.len() == i + 1,
                trees[0] == start,
                lefts[0] == budget - 1,
                trees.last() == snapshot@,
                lefts.last() == left,
                listing_walked(self.fs, root, dir, entries@.take(i as int), trees, lefts, budget as nat),
            decreases entries.len() - i,
        {
            let entry = &entries[i];
            let path = path_join(dir, entry.name.as_str());
            let entry_path = as_path(&path);
            let relative = relative_forward_slash(root, entry_path);
            let ghost t0 = snapshot@;
            let ghost l0 = left as nat;
            let ghost key = relative_key(root, entry_path);
            assert(owned_path(entry_path) == joined_path(dir, entries@[i as int].name@));
            match entry.kind {
                EntryKind::Directory => {
                    snapshot.insert(relative.as_str(), EntryKind::Directory);
                    if left == 0 {
                        let e = SourceError(WALK_LIMIT_MESSAGE.to_owned());
                        proof {
                            assert(entries@[i as int].kind == EntryKind::Directory);
                            assert(walk_failed(self.fs, root, dir, start, budget as nat, e));
                        }
                        return Err(e);
                    }
                    let below = self.walk(root, entry_path, snapshot, left);
                    match below {
                        Ok(rest) => {
                            left = rest;
                        },
                        Err(err) => {
                            proof {
                                assert(walk_failed(self.fs, root, entry_path, t0.insert(key, EntryKind::Directory), l0, err));
                                assert(entries@[i as int].kind == EntryKind::Directory);
                                assert(walk_failed(self.fs, root, dir, start, budget as nat, err));
                            }
                            return Err(err);
                        },
                    }
                },
                EntryKind::File => {
                    snapshot.insert(relative.as_str(), EntryKind::File);
                },
            }
            proof {
                assert(entry_step(self.fs, root, dir, entries@[i as int], t0, snapshot@, l0, left as nat, budget as nat));
                let old_trees = trees;
                let old_lefts = lefts;
                trees = trees.push(snapshot@);
                lefts = lefts.push(left as nat);
                let done = entries@.take(i as int);
                let next = entries@.take(i + 1);
                assert forall|k: int| 0 <= k < next.len() implies entry_step(
                    self.fs,
                    root,
                    dir,
                    #[trigger] next[k],
                    trees[k],
                    trees[k + 1],
                    lefts[k],
                    lefts[k + 1],
                    budget as nat,
                ) by {
                    if k < i {
                        assert(next[k] == done[k]);
                        assert(trees[k] == old_trees[k] && trees[k + 1] == old_trees[k + 1]);
                        assert(lefts[k] == old_lefts[k] && lefts[k + 1] == old_lefts[k + 1]);
                    } else {
                        assert(next[k] == entries@[i as int]);
                    }
                }
                assert(next.len() == i + 1);
                assert(trees.len() == next.len() + 1 && lefts.len() == next.len() + 1);
                assert(listing_walked(self.fs, root, dir, next, trees, lefts, budget as nat));
            }
            i = i + 1;
        }
        proof {
            assert(entries@.take(entries@.len() as int) =~= entries@);
            assert(listing_walked(self.fs, root, dir, entries@, trees, lefts, budget as nat));
            assert(walked_with(self.fs, root, dir, start, snapshot@, budget as nat, left as nat, entries, trees, lefts));
            reveal_with_fuel(walk_trace, 2);
            assert(walk_trace(self.fs, root, dir, start, snapshot@, budget as nat, left as nat));
        }
        Ok(left)
    }
}

impl<F: FileSystem> FileTreeSource for FsFileTreeSource<F> {
    /// A snapshot of `root` is the tree a whole walk from `root` records:
    /// every entry of every listing the filesystem gave, from `root` down
    /// through each listed directory, under its relative key with its
    /// listed kind, and nothing else. A failed one is a walk that failed,
    /// as [`walk_failed`] describes.
    open spec fn snaps(&self, root: &Path, r: Result<FileTreeSnapshot, SourceError>) -> bool {
        match r {
            Ok(s) => walked_from_root(self.file_system(), root, s@),
            Err(e) => walk_failed(
                self.file_system(),
                root,
                root,
                Map::<Seq<char>, EntryKind>::empty(),
                WALK_LIMIT as nat,
                e,
            ),
        }
    }

    /// The answer is the filesystem's, asked whether `dir` joined with
    /// `name` is a directory; it never fails.
    open spec fn finds(&self, dir: &Path, name: &str, r: Result<bool, SourceError>) -> bool {
        ||| r == Ok::<bool, SourceError>(true) && exists|p: &Path|
            owned_path(p) == joined_path(dir, name@) && #[trigger] self.file_system().sees_dir(p, true)
        ||| r == Ok::<bool, SourceError>(false) && exists|p: &Path|
            owned_path(p) == joined_path(dir, name@) && #[trigger] self.file_system().sees_dir(p, false)
    }

    /// Walks everything under `root`; fails with the filesystem's message
    /// when a directory cannot be listed.
    fn snapshot(&self, root: &Path) -> (r: Result<FileTreeSnapshot, SourceError>) {
        let mut snapshot = FileTreeSnapshot::empty();
        match self.walk(root, root, &mut snapshot, WALK_LIMIT) {
            Ok(left) => {
                assert(walk_trace(
                    self.file_system(),
                    root,
                    root,
                    Map::<Seq<char>, EntryKind>::empty(),
                    snapshot@,
                    WALK_LIMIT as nat,
                    left as nat,
                ));
                assert(walked_from_root(self.file_system(), root, snapshot@));
                let r = Ok(snapshot);
                assert(self.snaps(root, r));
                r
            },
            Err(err) => {
                assert(walk_failed(
                    self.file_system(),
                    root,
                    root,
                    Map::<Seq<char>, EntryKind>::empty(),
                    WALK_LIMIT as nat,
                    err,
                ));
                let r = Err(err);
                assert(self.snaps(root, r));
                r
            },
        }
    }

    /// Asks the filesystem whether `dir` joined with `name` is a directory;
    /// never fails.
    fn has_directory(&self, dir: &Path, name: &str) -> (r: Result<bool, SourceError>) {
        let path = path_join(dir, name);
        let asked = as_path(&path);
        let answer = self.fs.is_dir(asked);
        assert(owned_path(asked) == joined_path(dir, name@));
        if answer {
            assert(self.file_system().sees_dir(asked, true));
            Ok(true)
        } else {
            assert(self.file_system().sees_dir(asked, false));
            Ok(false)
        }
    }
}

} // verus!
