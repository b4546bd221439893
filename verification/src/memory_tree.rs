//! A repository file tree held in memory: the set of repository-relative
//! paths that exist. Answers [`FileTree`] questions without touching a disk.

use vstd::prelude::*;

use crate::ports::FileTree;
use crate::text::{same_text, texts};

verus! {

/// No text occurs twice in `s`.
pub open spec fn distinct_texts(s: Seq<Seq<char>>) -> bool {
    forall|i: int, j: int| 0 <= i < j < s.len() ==> s[i] != s[j]
}

/// Whether `path` is one of `paths`, searching linearly.
fn has_text(paths: &Vec<String>, path: &str) -> (r: bool)
    ensures
        r == texts(paths@).contains(path@),
{
    let ghost all = texts(paths@);
    let mut i: usize = 0;
    while i < paths.len()
        invariant
            all == texts(paths@),
            i <= paths@.len(),
            forall|k: int| 0 <= k < i ==> all[k] != path@,
        decreases paths.len() - i,
    {
        if same_text(paths[i].as_str(), path) {
            assert(all[i as int] == path@);
            return true;
        }
        i = i + 1;
    }
    false
}

/// A set of repository-relative paths, each of which exists.
pub struct InMemoryFileTree {
    paths: Vec<String>,
}

impl InMemoryFileTree {
    /// Each path is held once.
    #[verifier::type_invariant]
    closed spec fn each_path_once(self) -> bool {
        distinct_texts(texts(self.paths@))
    }
}

impl View for InMemoryFileTree {
    type V = Set<Seq<char>>;

    /// The set of paths that exist.
    closed spec fn view(&self) -> Set<Seq<char>> {
        Set::new(|p: Seq<char>| texts(self.paths@).contains(p))
    }
}

impl InMemoryFileTree {
    /// A tree in which exactly `paths` exist; a path given twice is held
    /// once.
    pub fn new(paths: Vec<String>) -> (r: Self)
        ensures
            forall|p: Seq<char>| r@.contains(p) <==> texts(paths@).contains(p),
    {
        let ghost given = texts(paths@);
        let mut held: Vec<String> = Vec::new();
        let mut i: usize = 0;
        while i < paths.len()
            invariant
                given == texts(paths@),
                i <= paths@.len(),
                distinct_texts(texts(held@)),
                forall|p: Seq<char>| texts(held@).contains(p) <==> given.take(i as int).contains(p),
            decreases paths.len() - i,
        {
            let path = &paths[i];
            let ghost before = texts(held@);
            let ghost prev = given.take(i as int);
            let ghost next = given.take(i + 1);
            assert(next =~= prev.push(path@));
            if !has_text(&held, path.as_str()) {
                held.push(path.clone());
                assert(texts(held@) =~= before.push(path@));
                assert forall|p: Seq<char>| texts(held@).contains(p) <==> next.contains(p) by {
                    if p == path@ {
                        assert(texts(held@)[before.len() as int] == p);
                        assert(next[i as int] == p);
                    } else {
                        if texts(held@).contains(p) {
                            let k = choose|k: int| 0 <= k < texts(held@).len() && texts(held@)[k] == p;
                            assert(before[k] == p);
                            assert(before.contains(p));
                            assert(prev.contains(p));
                            let j = choose|j: int| 0 <= j < prev.len() && prev[j] == p;
                            assert(next[j] == p);
                        }
                        if next.contains(p) {
                            let j = choose|j: int| 0 <= j < next.len() && next[j] == p;
                            assert(prev[j] == p);
                            assert(prev.contains(p));
                            assert(before.contains(p));
                            let k = choose|k: int| 0 <= k < before.len() && before[k] == p;
                            assert(texts(held@)[k] == p);
                        }
                    }
                }
            } else {
                assert forall|p: Seq<char>| texts(held@).contains(p) <==> next.contains(p) by {
                    if next.contains(p) && p != path@ {
                        let j = choose|j: int| 0 <= j < next.len() && next[j] == p;
                        assert(prev[j] == p);
                    }
                    if texts(held@).contains(p) {
                        let j = choose|j: int| 0 <= j < prev.len() && prev[j] == p;
                        assert(next[j] == p);
                    }
                }
            }
            i = i + 1;
        }
        assert(given.take(paths@.len() as int) =~= given);
        let r = InMemoryFileTree { paths: held };
        assert forall|p: Seq<char>| r@.contains(p) <==> texts(paths@).contains(p) by {}
        r
    }
}

impl FileTree for InMemoryFileTree {
    /// The answer is whether the path is one this tree holds.
    open spec fn has(&self, repo_relative_path: &str, r: bool) -> bool {
        r == self@.contains(repo_relative_path@)
    }

    /// Whether `repo_relative_path` is one of the paths this tree holds,
    /// compared exactly.
    fn path_exists(&self, repo_relative_path: &str) -> (r: bool)
        ensures
            r == self@.contains(repo_relative_path@),
    {
        has_text(&self.paths, repo_relative_path)
    }
}

} // verus!
