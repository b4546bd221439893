//! [`MandateStore`] over a [`FileSystem`]: mandate files are the `.yaml`
//! files directly in `<root>/.mandate/mandates/`, read by bare name.

use std::path::Path;

use vstd::prelude::*;
use vstd::multiset::Multiset;
use vstd::seq_lib::to_multiset_insert;

use crate::file_system::{DirEntry, FileSystem, FileSystemError};
use crate::file_tree::EntryKind;
use crate::fs_path::{as_path, extension, extension_text, joined_path, owned_path, path_join};
use crate::ports::{MandateFile, MandateStore, StoreError, MANDATES_DIR};
use crate::text::{compare_text, concat2, lemma_text_order_total, same_text, text_lt, texts, TextOrder};

verus! {

broadcast use vstd::seq_lib::group_to_multiset_ensures;

/// `s` is in ascending text order (equal texts may sit side by side).
pub open spec fn sorted_texts(s: Seq<Seq<char>>) -> bool {
    forall|i: int, j: int| 0 <= i < j < s.len() ==> !text_lt(#[trigger] s[j], #[trigger] s[i])
}

/// The entry is a file whose extension is `yaml`.
pub open spec fn is_yaml_file(e: DirEntry) -> bool {
    e.kind == EntryKind::File && extension_text(e.name@) == Some("yaml"@)
}

/// The names of the `.yaml` files among `entries`, in listing order.
pub open spec fn yaml_names(entries: Seq<DirEntry>) -> Seq<Seq<char>>
    decreases entries.len(),
{
    if entries.len() == 0 {
        Seq::<Seq<char>>::empty()
    } else if is_yaml_file(entries.last()) {
        yaml_names(entries.drop_last()).push(entries.last().name@)
    } else {
        yaml_names(entries.drop_last())
    }
}

/// Puts `name` into the sorted `sorted`, after every name not greater
/// than it.
fn insert_sorted(sorted: &mut Vec<String>, name: String)
    requires
        sorted_texts(texts(old(sorted)@)),
    ensures
        sorted_texts(texts(final(sorted)@)),
        texts(final(sorted)@).to_multiset() == texts(old(sorted)@).to_multiset().insert(name@),
{
    let ghost t = texts(sorted@);
    let mut pos: usize = 0;
    let mut found = false;
    while !found && pos < sorted.len()
        invariant
            t == texts(sorted@),
            sorted_texts(t),
            pos <= t.len(),
            forall|k: int| 0 <= k < pos ==> !text_lt(name@, #[trigger] t[k]),
            found ==> pos < t.len() && text_lt(name@, t[pos as int]),
        decreases sorted.len() - pos + if found { 0int } else { 1int },
    {
        match compare_text(name.as_str(), sorted[pos].as_str()) {
            TextOrder::Less => {
                found = true;
            },
            _ => {
                pos = pos + 1;
            },
        }
    }
    let ghost x = name@;
    assert(pos < t.len() ==> text_lt(x, t[pos as int]));
    sorted.insert(pos, name);
    let ghost u = texts(sorted@);
    assert(u =~= t.insert(pos as int, x));
    proof {
        to_multiset_insert(t, pos as int, x);
        assert forall|a: int, b: int| 0 <= a < b < u.len() implies !text_lt(#[trigger] u[b], #[trigger] u[a]) by {
            if b < pos {
                assert(u[a] == t[a] && u[b] == t[b]);
            } else if b == pos {
                assert(u[a] == t[a] && u[b] == x);
            } else if a < pos {
                assert(u[a] == t[a] && u[b] == t[b - 1]);
            } else if a == pos {
                assert(u[a] == x && u[b] == t[b - 1]);
                lemma_text_order_total(t[b - 1], x, t[pos as int]);
                lemma_text_order_total(t[pos as int], t[b - 1], x);
                if b - 1 > pos {
                    assert(!text_lt(t[b - 1], t[pos as int]));
                }
            } else {
                assert(u[a] == t[a - 1] && u[b] == t[b - 1]);
            }
        }
    }
}

/// The names of the `.yaml` files among `entries`, sorted.
pub fn yaml_file_names(entries: Vec<DirEntry>) -> (r: Vec<String>)
    ensures
        sorted_texts(texts(r@)),
        texts(r@).to_multiset() == yaml_names(entries@).to_multiset(),
{
    let ghost all = entries@;
    let mut names: Vec<String> = Vec::new();
    let mut i: usize = 0;
    assert(all.take(0) =~= Seq::<DirEntry>::empty());
    assert(texts(names@).to_multiset() =~= Multiset::<Seq<char>>::empty());
    while i < entries.len()
        invariant
            all == entries@,
            i <= all.len(),
            sorted_texts(texts(names@)),
            texts(names@).to_multiset() == yaml_names(all.take(i as int)).to_multiset(),
        decreases entries.len() - i,
    {
        let entry = &entries[i];
        let ghost prefix = all.take(i + 1);
        assert(prefix.drop_last() =~= all.take(i as int));
        assert(prefix.last() == all[i as int]);
        let is_file = match entry.kind {
            EntryKind::File => true,
            EntryKind::Directory => false,
        };
        let is_yaml = match extension(entry.name.as_str()) {
            Some(ext) => same_text(ext.as_str(), "yaml"),
            None => false,
        };
        if is_file && is_yaml {
            insert_sorted(&mut names, entry.name.clone());
            proof {
                vstd::seq_lib::to_multiset_build(yaml_names(all.take(i as int)), entry.name@);
            }
        }
        i = i + 1;
    }
    assert(all.take(all.len() as int) =~= all);
    names
}

/// `name` is a bare file name: no `/`, no `\`, and no `..` anywhere in it.
pub open spec fn bare_file_name(name: Seq<char>) -> bool {
    &&& forall|i: int| 0 <= i < name.len() ==> #[trigger] name[i] != '/' && name[i] != '\\'
    &&& forall|i: int| 0 <= i < name.len() - 1 ==> !(#[trigger] name[i] == '.' && name[i + 1] == '.')
}

/// Whether `name` is a bare file name.
pub fn is_bare_file_name(name: &str) -> (r: bool)
    ensures
        r == bare_file_name(name@),
{
    let n = name.unicode_len();
    let mut prev_dot = false;
    let mut i: usize = 0;
    while i < n
        invariant
            n == name@.len(),
            i <= n,
            prev_dot == (i > 0 && name@[i - 1] == '.'),
            forall|k: int| 0 <= k < i ==> #[trigger] name@[k] != '/' && name@[k] != '\\',
            forall|k: int| 0 <= k < i - 1 ==> !(#[trigger] name@[k] == '.' && name@[k + 1] == '.'),
        decreases n - i,
    {
        let c = name.get_char(i);
        if c == '/' || c == '\\' {
            return false;
        }
        if c == '.' && prev_dot {
            assert(name@[i - 1] == '.' && name@[(i - 1) + 1] == '.');
            return false;
        }
        prev_dot = c == '.';
        i = i + 1;
    }
    true
}

/// The message for a mandate file name that is not a bare file name.
pub open spec fn invalid_name_text(name: Seq<char>) -> Seq<char> {
    "invalid mandate file name: "@ + name
}

/// What the store reports for `listing`, the answer to listing its
/// mandates folder: the sorted names of the `.yaml` files listed, or the
/// filesystem's message.
pub open spec fn listed_result(
    listing: Result<Vec<DirEntry>, FileSystemError>,
    r: Result<Vec<String>, StoreError>,
) -> bool {
    match listing {
        Ok(entries) => (r matches Ok(names) && sorted_texts(texts(names@)) && texts(names@).to_multiset()
            == yaml_names(entries@).to_multiset()),
        Err(e) => (r matches Err(err) && err.0@ == e.0@),
    }
}

/// The mandates a listing of the mandates folder shows, or the listing's
/// failure as a store error.
pub fn mandates_in_listing(listing: Result<Vec<DirEntry>, FileSystemError>) -> (r: Result<
    Vec<String>,
    StoreError,
>)
    ensures
        listed_result(listing, r),
{
    match listing {
        Ok(entries) => Ok(yaml_file_names(entries)),
        Err(err) => Err(StoreError(err.to_string())),
    }
}

/// Mandate files kept in a [`FileSystem`].
pub struct FsMandateStore<F: FileSystem> {
    fs: F,
}

impl<F: FileSystem> FsMandateStore<F> {
    /// A store reading through `fs`.
    pub fn new(fs: F) -> (r: Self)
        ensures
            r.file_system() == fs,
    {
        FsMandateStore { fs }
    }

    /// The filesystem this store reads through.
    pub closed spec fn file_system(self) -> F {
        self.fs
    }

    /// `r` is what listing the mandates under `root` reports when the
    /// filesystem, asked about the mandates folder `dir`, said it is
    /// absent (no mandates), or said it is there and then gave a listing.
    pub open spec fn lists_from(self, dir: &Path, r: Result<Vec<String>, StoreError>) -> bool {
        ||| self.file_system().sees_entry(dir, false) && (r matches Ok(names) && names@.len() == 0)
        ||| self.file_system().sees_entry(dir, true) && exists|listing: Result<Vec<DirEntry>, FileSystemError>|
            #[trigger] self.file_system().lists(dir, listing) && listed_result(listing, r)
    }
}

/// What the store reports for reading `name` once the filesystem was asked
/// to read `path`: the file with its name and the text the filesystem gave,
/// or the filesystem's message.
pub open spec fn read_from<F: FileSystem>(
    fs: F,
    path: &Path,
    name: &str,
    r: Result<MandateFile, StoreError>,
) -> bool {
    match r {
        Ok(file) => file.file_name@ == name@ && fs.reads(path, Ok(file.text)),
        Err(e) => exists|fe: FileSystemError| #[trigger] fs.reads(path, Err(fe)) && e.0@ == fe.0@,
    }
}

impl<F: FileSystem> MandateStore for FsMandateStore<F> {
    /// A listing of `<root>/.mandate/mandates`, as [`FsMandateStore::lists_from`]
    /// describes.
    open spec fn lists_names(&self, root: &Path, r: Result<Vec<String>, StoreError>) -> bool {
        exists|dir: &Path|
            owned_path(dir) == joined_path(root, MANDATES_DIR@) && #[trigger] self.lists_from(dir, r)
    }

    /// A name that is not bare is refused with its message; a bare one is
    /// read from `<root>/.mandate/mandates/<file_name>`.
    open spec fn reads_file(&self, root: &Path, file_name: &str, r: Result<MandateFile, StoreError>) -> bool {
        &&& !bare_file_name(file_name@) ==> (r matches Err(e) && e.0@ == invalid_name_text(file_name@))
        &&& bare_file_name(file_name@) ==> exists|d: &Path, p: &Path|
            #![trigger owned_path(d), read_from(self.file_system(), p, file_name, r)]
            owned_path(d) == joined_path(root, MANDATES_DIR@) && owned_path(p) == joined_path(
                d,
                file_name@,
            ) && read_from(self.file_system(), p, file_name, r)
    }

    /// The `.yaml` files directly in `<root>/.mandate/mandates/`, sorted;
    /// none when that folder does not exist.
    fn list(&self, root: &Path) -> (r: Result<Vec<String>, StoreError>)
        ensures
            exists|dir: &Path|
                owned_path(dir) == joined_path(root, MANDATES_DIR@) && #[trigger] self.lists_from(dir, r),
            r matches Ok(names) ==> (sorted_texts(texts(names@)) && forall|i: int|
                0 <= i < names@.len() ==> extension_text((#[trigger] names@[i])@) == Some("yaml"@)),
    {
        let mandates_dir = path_join(root, MANDATES_DIR);
        let dir = as_path(&mandates_dir);
        if !self.fs.path_exists(dir) {
            let none: Vec<String> = Vec::new();
            assert(self.lists_from(dir, Ok(none)));
            return Ok(none);
        }
        let listing = self.fs.list_dir(dir);
        let ghost answer = listing;
        let result = mandates_in_listing(listing);
        assert(self.lists_from(dir, result));
        let names = match result {
            Ok(names) => names,
            Err(err) => {
                return Err(err);
            },
        };
        let ghost listed = answer->Ok_0@;
        proof {
            lemma_yaml_names_are_yaml(listed);
            assert forall|i: int| 0 <= i < names@.len() implies extension_text(
                (#[trigger] names@[i])@,
            ) == Some("yaml"@) by {
                let t = texts(names@);
                assert(t[i] == names@[i]@);
                assert(t.contains(t[i]));
                assert(t.to_multiset().contains(t[i]));
                assert(yaml_names(listed).to_multiset().contains(t[i]));
                assert(yaml_names(listed).contains(t[i]));
                let k = choose|k: int| 0 <= k < yaml_names(listed).len() && yaml_names(listed)[k] == t[i];
            }
        }
        Ok(names)
    }

    /// Reads `<root>/.mandate/mandates/<file_name>`. A `file_name` that is
    /// not a bare file name is refused without being resolved.
    fn read(&self, root: &Path, file_name: &str) -> (r: Result<MandateFile, StoreError>)
        ensures
            !bare_file_name(file_name@) ==> (r matches Err(e) && e.0@ == invalid_name_text(file_name@)),
            r matches Ok(file) ==> (bare_file_name(file_name@) && file.file_name@ == file_name@),
    {
        if !is_bare_file_name(file_name) {
            return Err(StoreError(concat2("invalid mandate file name: ", file_name)));
        }
        let mandates_dir = path_join(root, MANDATES_DIR);
        let dir = as_path(&mandates_dir);
        let path = path_join(dir, file_name);
        let asked = as_path(&path);
        let answer = self.fs.read_to_string(asked);
        let ghost given = answer;
        let r = match answer {
            Ok(text) => Ok(MandateFile { file_name: file_name.to_owned(), text }),
            Err(err) => Err(StoreError(err.to_string())),
        };
        proof {
            assert(self.file_system().reads(asked, given));
            if given is Err {
                assert(self.file_system().reads(asked, Err(given->Err_0)));
            }
            assert(read_from(self.file_system(), asked, file_name, r));
            assert(owned_path(dir) == joined_path(root, MANDATES_DIR@));
        }
        r
    }
}

/// Every name [`yaml_names`] keeps has the `yaml` extension.
proof fn lemma_yaml_names_are_yaml(entries: Seq<DirEntry>)
    ensures
        forall|i: int|
            0 <= i < yaml_names(entries).len() ==> extension_text(#[trigger] yaml_names(entries)[i])
                == Some("yaml"@),
    decreases entries.len(),
{
    if entries.len() > 0 {
        lemma_yaml_names_are_yaml(entries.drop_last());
    }
}

} // verus!
