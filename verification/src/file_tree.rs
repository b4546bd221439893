//! [`FileTreeSnapshot`]: an exact repository-relative file tree at a point
//! in time. Paths use forward slashes and are never normalised; a snapshot
//! knows exactly what it was told. Entries are kept sorted by path, in the
//! byte order `String` uses, so a snapshot lists its paths in that order.

use vstd::prelude::*;

use crate::mandate::{CodeLink, GovernedDoc, Mandate};
use crate::text::{
    compare_text, lemma_byte_order_swap, lemma_text_order_equal, lemma_text_order_total, text_lt,
    TextOrder,
};

verus! {

/// Whether an entry is a file or a directory.
#[derive(Debug, Clone, Copy, PartialEq, Eq, Structural)]
pub enum EntryKind {
    File,
    Directory,
}

/// Strictly ascending paths: sorted, and no path twice.
pub open spec fn sorted_paths(s: Seq<(Seq<char>, EntryKind)>) -> bool {
    forall|i: int, j: int| 0 <= i < j < s.len() ==> text_lt(#[trigger] s[i].0, #[trigger] s[j].0)
}

/// The map a sequence of `(path, kind)` pairs describes.
pub open spec fn entries_map(s: Seq<(Seq<char>, EntryKind)>) -> Map<Seq<char>, EntryKind> {
    Map::new(
        |k: Seq<char>| exists|i: int| 0 <= i < s.len() && #[trigger] s[i].0 == k,
        |k: Seq<char>| s[choose|i: int| 0 <= i < s.len() && #[trigger] s[i].0 == k].1,
    )
}

/// In a strictly sorted sequence, each pair is what the map holds at its path.
pub proof fn lemma_entries_map_at(s: Seq<(Seq<char>, EntryKind)>, i: int)
    requires
        sorted_paths(s),
        0 <= i < s.len(),
    ensures
        entries_map(s).dom().contains(s[i].0),
        entries_map(s)[s[i].0] == s[i].1,
{
    let k = s[i].0;
    assert(exists|j: int| 0 <= j < s.len() && #[trigger] s[j].0 == k);
    let j = choose|j: int| 0 <= j < s.len() && #[trigger] s[j].0 == k;
    lemma_text_order_total(k, k, k);
    if j < i {
        assert(text_lt(s[j].0, s[i].0));
    } else if i < j {
        assert(text_lt(s[i].0, s[j].0));
    }
}

/// Adding a new path at its sorted position keeps the sequence sorted and
/// adds that path to the map.
pub proof fn lemma_insert_new(s: Seq<(Seq<char>, EntryKind)>, idx: int, p: Seq<char>, kind: EntryKind)
    requires
        sorted_paths(s),
        0 <= idx <= s.len(),
        forall|j: int| 0 <= j < idx ==> text_lt(#[trigger] s[j].0, p),
        forall|j: int| idx <= j < s.len() ==> text_lt(p, #[trigger] s[j].0),
    ensures
        sorted_paths(s.insert(idx, (p, kind))),
        entries_map(s.insert(idx, (p, kind))) == entries_map(s).insert(p, kind),
{
    let t = s.insert(idx, (p, kind));
    s.insert_ensures(idx, (p, kind));
    assert forall|i: int, j: int| 0 <= i < j < t.len() implies text_lt(
        #[trigger] t[i].0,
        #[trigger] t[j].0,
    ) by {
        if j < idx {
        } else if j == idx {
        } else if i < idx {
            lemma_text_order_total(t[i].0, p, t[j].0);
            assert(t[j] == s[j - 1]);
        } else if i == idx {
            assert(t[j] == s[j - 1]);
        } else {
            assert(t[i] == s[i - 1]);
            assert(t[j] == s[j - 1]);
        }
    }
    let m = entries_map(s).insert(p, kind);
    assert forall|k: Seq<char>| #[trigger] entries_map(t).dom().contains(k) <==> m.dom().contains(k) by {
        if entries_map(t).dom().contains(k) {
            let i = choose|i: int| 0 <= i < t.len() && #[trigger] t[i].0 == k;
            if i < idx {
                assert(s[i].0 == k);
            } else if i > idx {
                assert(s[i - 1].0 == k);
            }
        }
        if m.dom().contains(k) && k != p {
            let i = choose|i: int| 0 <= i < s.len() && #[trigger] s[i].0 == k;
            if i < idx {
                assert(t[i].0 == k);
            } else {
                assert(t[i + 1].0 == k);
            }
        }
        if k == p {
            assert(t[idx].0 == k);
        }
    }
    assert forall|k: Seq<char>| #[trigger] entries_map(t).dom().contains(k) implies entries_map(t)[k]
        == m[k] by {
        let i = choose|i: int| 0 <= i < t.len() && #[trigger] t[i].0 == k;
        lemma_entries_map_at(t, i);
        if i < idx {
            lemma_entries_map_at(s, i);
            lemma_text_order_total(k, p, p);
        } else if i > idx {
            lemma_entries_map_at(s, i - 1);
            lemma_text_order_total(k, p, p);
        }
    }
    assert(entries_map(t) =~= m);
}

/// Replacing the pair at a path's position changes only that path's kind.
pub proof fn lemma_update_at(s: Seq<(Seq<char>, EntryKind)>, idx: int, kind: EntryKind)
    requires
        sorted_paths(s),
        0 <= idx < s.len(),
    ensures
        sorted_paths(s.update(idx, (s[idx].0, kind))),
        entries_map(s.update(idx, (s[idx].0, kind))) == entries_map(s).insert(s[idx].0, kind),
{
    let p = s[idx].0;
    let t = s.update(idx, (p, kind));
    assert forall|i: int, j: int| 0 <= i < j < t.len() implies text_lt(
        #[trigger] t[i].0,
        #[trigger] t[j].0,
    ) by {
        assert(t[i].0 == s[i].0);
        assert(t[j].0 == s[j].0);
    }
    let m = entries_map(s).insert(p, kind);
    assert forall|k: Seq<char>| #[trigger] entries_map(t).dom().contains(k) <==> m.dom().contains(k) by {
        if entries_map(t).dom().contains(k) {
            let i = choose|i: int| 0 <= i < t.len() && #[trigger] t[i].0 == k;
            assert(s[i].0 == k);
        }
        if m.dom().contains(k) && k != p {
            let i = choose|i: int| 0 <= i < s.len() && #[trigger] s[i].0 == k;
            assert(t[i].0 == k);
        }
        if k == p {
            assert(t[idx].0 == k);
        }
    }
    assert forall|k: Seq<char>| #[trigger] entries_map(t).dom().contains(k) implies entries_map(t)[k]
        == m[k] by {
        let i = choose|i: int| 0 <= i < t.len() && #[trigger] t[i].0 == k;
        lemma_entries_map_at(t, i);
        if i != idx {
            lemma_entries_map_at(s, i);
            lemma_entries_map_at(s, idx);
            lemma_text_order_total(k, p, p);
            if i < idx {
                assert(text_lt(s[i].0, s[idx].0));
            } else {
                assert(text_lt(s[idx].0, s[i].0));
            }
        }
    }
    assert(entries_map(t) =~= m);
}

/// Taking out the pair at a position keeps the sequence sorted and removes
/// that path from the map.
pub proof fn lemma_remove_at(s: Seq<(Seq<char>, EntryKind)>, idx: int)
    requires
        sorted_paths(s),
        0 <= idx < s.len(),
    ensures
        sorted_paths(s.remove(idx)),
        entries_map(s.remove(idx)) == entries_map(s).remove(s[idx].0),
{
    let p = s[idx].0;
    let t = s.remove(idx);
    s.remove_ensures(idx);
    assert forall|i: int, j: int| 0 <= i < j < t.len() implies text_lt(
        #[trigger] t[i].0,
        #[trigger] t[j].0,
    ) by {
        if j < idx {
        } else if i < idx {
            assert(t[j] == s[j + 1]);
        } else {
            assert(t[i] == s[i + 1]);
            assert(t[j] == s[j + 1]);
        }
    }
    let m = entries_map(s).remove(p);
    assert forall|k: Seq<char>| #[trigger] entries_map(t).dom().contains(k) <==> m.dom().contains(k) by {
        if entries_map(t).dom().contains(k) {
            let i = choose|i: int| 0 <= i < t.len() && #[trigger] t[i].0 == k;
            let i0 = if i < idx { i } else { i + 1 };
            assert(s[i0].0 == k);
            lemma_text_order_total(k, p, p);
            if i0 < idx {
                assert(text_lt(s[i0].0, s[idx].0));
            } else {
                assert(text_lt(s[idx].0, s[i0].0));
            }
        }
        if m.dom().contains(k) {
            let i = choose|i: int| 0 <= i < s.len() && #[trigger] s[i].0 == k;
            if i < idx {
                assert(t[i].0 == k);
            } else {
                assert(i != idx);
                assert(t[i - 1].0 == k);
            }
        }
    }
    assert forall|k: Seq<char>| #[trigger] entries_map(t).dom().contains(k) implies entries_map(t)[k]
        == m[k] by {
        let i = choose|i: int| 0 <= i < t.len() && #[trigger] t[i].0 == k;
        lemma_entries_map_at(t, i);
        if i < idx {
            lemma_entries_map_at(s, i);
        } else {
            lemma_entries_map_at(s, i + 1);
        }
    }
    assert(entries_map(t) =~= m);
}

/// `a` names a directory above `p`: the text of `p` up to one of its slashes.
pub open spec fn is_ancestor(a: Seq<char>, p: Seq<char>) -> bool {
    a.len() < p.len() && p[a.len() as int] == '/' && p.take(a.len() as int) == a
}

/// `m` after recording `p` as a file and every ancestor of `p` that `m`
/// does not hold yet as a directory.
pub open spec fn with_file(m: Map<Seq<char>, EntryKind>, p: Seq<char>) -> Map<Seq<char>, EntryKind> {
    Map::new(
        |k: Seq<char>| m.dom().contains(k) || k == p || is_ancestor(k, p),
        |k: Seq<char>|
            if k == p {
                EntryKind::File
            } else if m.dom().contains(k) {
                m[k]
            } else {
                EntryKind::Directory
            },
    )
}

/// `m` after recording each path of `ps`, in order, with [`with_file`].
pub open spec fn with_files(m: Map<Seq<char>, EntryKind>, ps: Seq<Seq<char>>) -> Map<
    Seq<char>,
    EntryKind,
>
    decreases ps.len(),
{
    if ps.len() == 0 {
        m
    } else {
        with_file(with_files(m, ps.drop_last()), ps.last())
    }
}

/// Every document a mandate governs, then every source file it links, in
/// the order the mandate lists them.
pub open spec fn linked_paths(m: Mandate) -> Seq<Seq<char>> {
    m.governs@.map_values(|g: GovernedDoc| g.doc@) + m.code@.map_values(|c: CodeLink| c.path@)
}

/// Putting back what `remove` took out restores the snapshot: removing a
/// recorded path and inserting it again with its kind gives the snapshot
/// that was there before.
pub proof fn lemma_insert_undoes_remove(m: Map<Seq<char>, EntryKind>, p: Seq<char>)
    requires
        m.dom().contains(p),
    ensures
        m.remove(p).insert(p, m[p]) == m,
{
    assert(m.remove(p).insert(p, m[p]) =~= m);
}

/// Renaming a path to a free name and back restores the snapshot.
pub proof fn lemma_rename_back_restores(m: Map<Seq<char>, EntryKind>, from: Seq<char>, to: Seq<char>)
    requires
        m.dom().contains(from),
        !m.dom().contains(to),
    ensures
        ({
            let moved = m.remove(from).insert(to, m[from]);
            moved.remove(to).insert(from, moved[to]) == m
        }),
{
    let moved = m.remove(from).insert(to, m[from]);
    assert(moved.remove(to).insert(from, moved[to]) =~= m);
}

/// Part of [`with_file`]: the ancestors of `p` shorter than `n` recorded.
spec fn with_ancestors_below(m: Map<Seq<char>, EntryKind>, p: Seq<char>, n: int) -> Map<
    Seq<char>,
    EntryKind,
> {
    Map::new(
        |k: Seq<char>| m.dom().contains(k) || (is_ancestor(k, p) && k.len() < n),
        |k: Seq<char>|
            if m.dom().contains(k) {
                m[k]
            } else {
                EntryKind::Directory
            },
    )
}

/// A path recorded by [`with_files`] is a file in the result.
pub proof fn lemma_with_files_records_files(m: Map<Seq<char>, EntryKind>, ps: Seq<Seq<char>>, i: int)
    requires
        0 <= i < ps.len(),
    ensures
        with_files(m, ps).dom().contains(ps[i]),
        with_files(m, ps)[ps[i]] == EntryKind::File,
    decreases ps.len(),
{
    if i < ps.len() - 1 {
        lemma_with_files_records_files(m, ps.drop_last(), i);
    }
}

/// A file tree snapshot: each path recorded at most once, with its kind.
#[derive(Debug, PartialEq, Eq)]
pub struct FileTreeSnapshot {
    entries: Vec<(String, EntryKind)>,
}

impl Clone for FileTreeSnapshot {
    /// An independent copy holding the same entries.
    fn clone(&self) -> (r: Self)
        ensures
            r@ == self@,
    {
        proof {
            use_type_invariant(self);
        }
        let mut entries: Vec<(String, EntryKind)> = Vec::new();
        let mut i: usize = 0;
        while i < self.entries.len()
            invariant
                i <= self.entries@.len(),
                entries@.len() == i,
                forall|j: int| 0 <= j < i ==> #[trigger] entries@[j] == self.entries@[j],
            decreases self.entries.len() - i,
        {
            let path = self.entries[i].0.clone();
            entries.push((path, self.entries[i].1));
            i = i + 1;
        }
        assert(entries@ =~= self.entries@);
        FileTreeSnapshot { entries }
    }
}

impl Default for FileTreeSnapshot {
    /// The empty snapshot.
    fn default() -> (r: Self)
        ensures
            r@ == Map::<Seq<char>, EntryKind>::empty(),
    {
        FileTreeSnapshot::empty()
    }
}

impl View for FileTreeSnapshot {
    type V = Map<Seq<char>, EntryKind>;

    closed spec fn view(&self) -> Map<Seq<char>, EntryKind> {
        entries_map(self.pairs())
    }
}

impl FileTreeSnapshot {
    /// The entries as `(path, kind)` pairs of plain values, in stored order.
    pub closed spec fn pairs(self) -> Seq<(Seq<char>, EntryKind)> {
        self.entries@.map_values(|e: (String, EntryKind)| (e.0@, e.1))
    }

    #[verifier::type_invariant]
    closed spec fn well_formed(self) -> bool {
        sorted_paths(self.pairs())
    }

    /// The number of entries equals the number of paths in the view.
    proof fn lemma_len(self)
        requires
            self.well_formed(),
        ensures
            self@.dom().finite(),
            self@.dom().len() == self.entries@.len(),
    {
        let s = self.pairs();
        let keys = s.map_values(|e: (Seq<char>, EntryKind)| e.0);
        assert forall|i: int, j: int| 0 <= i < keys.len() && 0 <= j < keys.len() && i != j
            implies keys[i] != keys[j] by {
            lemma_text_order_total(keys[i], keys[j], keys[j]);
            if i < j {
                assert(text_lt(s[i].0, s[j].0));
            } else {
                assert(text_lt(s[j].0, s[i].0));
            }
        }
        assert(keys.no_duplicates());
        assert(self@.dom() =~= keys.to_set()) by {
            assert forall|k: Seq<char>| self@.dom().contains(k) implies keys.to_set().contains(k) by {
                let i = choose|i: int| 0 <= i < s.len() && #[trigger] s[i].0 == k;
                assert(keys[i] == k);
            }
            assert forall|k: Seq<char>| keys.to_set().contains(k) implies self@.dom().contains(k) by {
                let i = choose|i: int| 0 <= i < keys.len() && #[trigger] keys[i] == k;
                assert(s[i].0 == k);
            }
        }
        keys.unique_seq_to_set();
    }

    /// Finds where `path` is, or where it would go: every path before the
    /// returned position sorts before `path`, and, when `path` is absent,
    /// every path from that position on sorts after it.
    fn locate(&self, path: &str) -> (r: (bool, usize))
        ensures
            r.1 <= self.pairs().len(),
            forall|j: int| 0 <= j < r.1 ==> text_lt(#[trigger] self.pairs()[j].0, path@),
            r.0 ==> r.1 < self.pairs().len() && self.pairs()[r.1 as int].0 == path@,
            !r.0 ==> forall|j: int|
                r.1 <= j < self.pairs().len() ==> text_lt(path@, #[trigger] self.pairs()[j].0),
    {
        proof {
            use_type_invariant(self);
        }
        let ghost s = self.pairs();
        let mut i: usize = 0;
        while i < self.entries.len()
            invariant
                s == self.pairs(),
                sorted_paths(s),
                i <= s.len(),
                s.len() == self.entries@.len(),
                forall|j: int| 0 <= j < i ==> text_lt(#[trigger] s[j].0, path@),
            decreases self.entries.len() - i,
        {
            let o = compare_text(self.entries[i].0.as_str(), path);
            assert(s[i as int].0 == self.entries@[i as int].0@);
            match o {
                TextOrder::Equal => {
                    proof {
                        lemma_text_order_equal(s[i as int].0, path@);
                    }
                    return (true, i);
                },
                TextOrder::Greater => {
                    proof {
                        lemma_byte_order_swap(
                            vstd::utf8::encode_utf8(path@),
                            vstd::utf8::encode_utf8(s[i as int].0),
                        );
                        assert forall|j: int| i <= j < s.len() implies text_lt(
                            path@,
                            #[trigger] s[j].0,
                        ) by {
                            if j > i {
                                assert(text_lt(s[i as int].0, s[j].0));
                                lemma_text_order_total(path@, s[i as int].0, s[j].0);
                            }
                        }
                    }
                    return (false, i);
                },
                TextOrder::Less => {},
            }
            i = i + 1;
        }
        (false, i)
    }

    /// The kind recorded at `path`, if any.
    fn kind_of(&self, path: &str) -> (r: Option<EntryKind>)
        ensures
            r == (if self@.dom().contains(path@) {
                Some(self@[path@])
            } else {
                None
            }),
    {
        proof {
            use_type_invariant(self);
        }
        let (found, i) = self.locate(path);
        proof {
            if found {
                lemma_entries_map_at(self.pairs(), i as int);
            } else if self@.dom().contains(path@) {
                let j = choose|j: int| 0 <= j < self.pairs().len() && #[trigger] self.pairs()[j].0 == path@;
                lemma_text_order_total(path@, path@, path@);
                if j < i {
                    assert(text_lt(self.pairs()[j].0, path@));
                } else {
                    assert(text_lt(path@, self.pairs()[j].0));
                }
            }
        }
        if found {
            assert(self.pairs()[i as int].1 == self.entries@[i as int].1);
            Some(self.entries[i].1)
        } else {
            None
        }
    }

    /// Whether `path` is present and recorded as a file.
    pub fn is_file(&self, path: &str) -> (r: bool)
        ensures
            r == (self@.dom().contains(path@) && self@[path@] == EntryKind::File),
    {
        match self.kind_of(path) {
            Some(EntryKind::File) => true,
            _ => false,
        }
    }

    /// Whether `path` is present and recorded as a directory.
    pub fn is_dir(&self, path: &str) -> (r: bool)
        ensures
            r == (self@.dom().contains(path@) && self@[path@] == EntryKind::Directory),
    {
        match self.kind_of(path) {
            Some(EntryKind::Directory) => true,
            _ => false,
        }
    }

    /// The number of entries recorded, files and directories together.
    pub fn len(&self) -> (r: usize)
        ensures
            r == self@.dom().len(),
    {
        proof {
            use_type_invariant(self);
            self.lemma_len();
        }
        self.entries.len()
    }

    /// Whether no entries are recorded at all.
    pub fn is_empty(&self) -> (r: bool)
        ensures
            r == (self@.dom().len() == 0),
            r == (self@ == Map::<Seq<char>, EntryKind>::empty()),
    {
        proof {
            use_type_invariant(self);
            self.lemma_len();
            if self.entries@.len() > 0 {
                lemma_entries_map_at(self.pairs(), 0);
                assert(self@.dom().contains(self.pairs()[0].0));
            } else {
                assert(self@ =~= Map::<Seq<char>, EntryKind>::empty());
            }
        }
        self.entries.len() == 0
    }

    /// Every recorded path, in ascending byte order.
    pub fn paths(&self) -> (r: Vec<String>)
        ensures
            r@.len() == self@.dom().len(),
            forall|i: int, j: int| 0 <= i < j < r@.len() ==> text_lt(#[trigger] r@[i]@, #[trigger] r@[j]@),
            forall|k: Seq<char>| self@.dom().contains(k) <==> exists|i: int| 0 <= i < r@.len() && #[trigger] r@[i]@ == k,
    {
        proof {
            use_type_invariant(self);
            self.lemma_len();
        }
        let ghost s = self.pairs();
        let mut r: Vec<String> = Vec::new();
        let mut i: usize = 0;
        while i < self.entries.len()
            invariant
                s == self.pairs(),
                s.len() == self.entries@.len(),
                i <= s.len(),
                r@.len() == i,
                forall|j: int| 0 <= j < i ==> (#[trigger] r@[j])@ == s[j].0,
            decreases self.entries.len() - i,
        {
            r.push(self.entries[i].0.clone());
            i = i + 1;
        }
        proof {
            assert forall|a: int, b: int| 0 <= a < b < r@.len() implies text_lt(#[trigger] r@[a]@, #[trigger] r@[b]@) by {
                assert(text_lt(s[a].0, s[b].0));
            }
            assert forall|k: Seq<char>| self@.dom().contains(k) <==> exists|j: int| 0 <= j < r@.len() && #[trigger] r@[j]@ == k by {
                if self@.dom().contains(k) {
                    let j = choose|j: int| 0 <= j < s.len() && #[trigger] s[j].0 == k;
                    assert(r@[j]@ == k);
                }
                if exists|j: int| 0 <= j < r@.len() && #[trigger] r@[j]@ == k {
                    let j = choose|j: int| 0 <= j < r@.len() && #[trigger] r@[j]@ == k;
                    lemma_entries_map_at(s, j);
                }
            }
        }
        r
    }

    /// Records `path` with `kind`, overwriting any prior entry at `path`.
    pub fn insert(&mut self, path: &str, kind: EntryKind)
        ensures
            final(self)@ == old(self)@.insert(path@, kind),
    {
        proof {
            use_type_invariant(&*self);
        }
        let (found, i) = self.locate(path);
        let ghost s = self.pairs();
        let mut entries: Vec<(String, EntryKind)> = Vec::new();
        std::mem::swap(&mut entries, &mut self.entries);
        if found {
            let owned = path.to_owned();
            entries.set(i, (owned, kind));
            proof {
                lemma_update_at(s, i as int, kind);
                assert(entries@.map_values(|e: (String, EntryKind)| (e.0@, e.1)) =~= s.update(
                    i as int,
                    (s[i as int].0, kind),
                ));
            }
        } else {
            let owned = path.to_owned();
            entries.insert(i, (owned, kind));
            proof {
                lemma_insert_new(s, i as int, path@, kind);
                assert(entries@.map_values(|e: (String, EntryKind)| (e.0@, e.1)) =~= s.insert(
                    i as int,
                    (path@, kind),
                ));
            }
        }
        self.entries = entries;
    }

    /// Removes `path`. Returns `true` if it was present.
    pub fn remove(&mut self, path: &str) -> (r: bool)
        ensures
            r == old(self)@.dom().contains(path@),
            final(self)@ == old(self)@.remove(path@),
    {
        proof {
            use_type_invariant(&*self);
        }
        let (found, i) = self.locate(path);
        let ghost s = self.pairs();
        proof {
            if !found && self@.dom().contains(path@) {
                let j = choose|j: int| 0 <= j < s.len() && #[trigger] s[j].0 == path@;
                lemma_text_order_total(path@, path@, path@);
                if j < i {
                    assert(text_lt(s[j].0, path@));
                } else {
                    assert(text_lt(path@, s[j].0));
                }
            }
            if !found {
                assert(self@ =~= self@.remove(path@));
            }
        }
        if found {
            let mut entries: Vec<(String, EntryKind)> = Vec::new();
            std::mem::swap(&mut entries, &mut self.entries);
            let _ = entries.remove(i);
            proof {
                lemma_remove_at(s, i as int);
                assert(entries@.map_values(|e: (String, EntryKind)| (e.0@, e.1)) =~= s.remove(
                    i as int,
                ));
            }
            self.entries = entries;
            proof {
                lemma_entries_map_at(s, i as int);
            }
        }
        found
    }

    /// Moves `from` to `to`, keeping its kind. Returns `false` (and does
    /// nothing) if `from` is absent.
    pub fn rename(&mut self, from: &str, to: &str) -> (r: bool)
        ensures
            r == old(self)@.dom().contains(from@),
            r ==> final(self)@ == old(self)@.remove(from@).insert(to@, old(self)@[from@]),
            !r ==> final(self)@ == old(self)@,
    {
        match self.kind_of(from) {
            Some(kind) => {
                self.remove(from);
                self.insert(to, kind);
                true
            },
            None => false,
        }
    }

    /// A snapshot holding every document `mandate` governs and every source
    /// file it links, each as a file, plus every ancestor directory of each
    /// as a directory.
    pub fn with_every_file_in(mandate: &Mandate) -> (r: Self)
        ensures
            r@ == with_files(Map::empty(), linked_paths(*mandate)),
    {
        let ghost ps = linked_paths(*mandate);
        let ghost g = mandate.governs@.map_values(|g: GovernedDoc| g.doc@);
        let mut snapshot = FileTreeSnapshot::empty();
        let mut i: usize = 0;
        while i < mandate.governs.len()
            invariant
                ps == linked_paths(*mandate),
                g == mandate.governs@.map_values(|g: GovernedDoc| g.doc@),
                i <= mandate.governs@.len(),
                snapshot@ == with_files(Map::empty(), ps.take(i as int)),
            decreases mandate.governs.len() - i,
        {
            snapshot.insert_file_with_ancestors(mandate.governs[i].doc.as_str());
            assert(ps.take(i + 1).drop_last() =~= ps.take(i as int));
            assert(ps[i as int] == mandate.governs@[i as int].doc@);
            i = i + 1;
        }
        let mut j: usize = 0;
        let n = mandate.governs.len();
        while j < mandate.code.len()
            invariant
                ps == linked_paths(*mandate),
                n == mandate.governs@.len(),
                ps.len() == n + mandate.code@.len(),
                j <= mandate.code@.len(),
                snapshot@ == with_files(Map::empty(), ps.take(n + j)),
            decreases mandate.code.len() - j,
        {
            snapshot.insert_file_with_ancestors(mandate.code[j].path.as_str());
            assert(ps.take(n + j + 1).drop_last() =~= ps.take(n + j));
            assert(ps[n + j] == mandate.code@[j as int].path@);
            j = j + 1;
        }
        assert(ps.take(ps.len() as int) =~= ps);
        snapshot
    }

    /// Records `path` as a file, and each ancestor directory of it that is
    /// not recorded yet as a directory.
    fn insert_file_with_ancestors(&mut self, path: &str)
        ensures
            final(self)@ == with_file(old(self)@, path@),
    {
        let ghost m = self@;
        let ghost p = path@;
        let n = path.unicode_len();
        let mut j: usize = 0;
        assert(self@ =~= with_ancestors_below(m, p, 0));
        while j < n
            invariant
                p == path@,
                n == p.len(),
                j <= n,
                self@ == with_ancestors_below(m, p, j as int),
            decreases n - j,
        {
            if path.get_char(j) == '/' {
                let ancestor = path.substring_char(0, j);
                assert(is_ancestor(ancestor@, p));
                if !self.path_exists(ancestor) {
                    self.insert(ancestor, EntryKind::Directory);
                }
                assert(self@ =~= with_ancestors_below(m, p, j + 1));
            } else {
                assert forall|k: Seq<char>| is_ancestor(k, p) && k.len() < j + 1 implies k.len() < j by {
                    if k.len() == j {
                        assert(p[k.len() as int] == '/');
                    }
                }
                assert(self@ =~= with_ancestors_below(m, p, j + 1));
            }
            j = j + 1;
        }
        self.insert(path, EntryKind::File);
        assert(self@ =~= with_file(m, p));
    }

    /// A snapshot with nothing in it.
    pub fn empty() -> (r: Self)
        ensures
            r@ == Map::<Seq<char>, EntryKind>::empty(),
    {
        let r = FileTreeSnapshot { entries: Vec::new() };
        assert(r@ =~= Map::<Seq<char>, EntryKind>::empty());
        r
    }

    /// Whether `path` is present at all, file or directory.
    pub fn path_exists(&self, path: &str) -> (r: bool)
        ensures
            r == self@.dom().contains(path@),
    {
        proof {
            use_type_invariant(self);
        }
        let (found, i) = self.locate(path);
        proof {
            if found {
                lemma_entries_map_at(self.pairs(), i as int);
            } else if self@.dom().contains(path@) {
                let j = choose|j: int| 0 <= j < self.pairs().len() && #[trigger] self.pairs()[j].0 == path@;
                lemma_text_order_total(path@, path@, path@);
                if j < i {
                    assert(text_lt(self.pairs()[j].0, path@));
                } else {
                    assert(text_lt(path@, self.pairs()[j].0));
                }
            }
        }
        found
    }
}

} // verus!
