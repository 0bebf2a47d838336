//! The directory: which file lives where, by name.

use vstd::prelude::*;

verus! {

/// Where a saved file lies: on which disk, from which sector, and how many
/// sectors (one line per sector) it takes.
#[derive(Clone, Copy, PartialEq, Eq, Structural, Debug)]
pub struct FileInfo {
    pub disk_number: usize,
    pub starting_sector: usize,
    pub file_length: usize,
}

/// The directory of saved files, keyed by file name. Entering a name that is
/// already there replaces its entry.
pub struct DirectoryManager {
    files: Vec<(String, FileInfo)>,
}

/// What looking `name` up in the directory `files` gives.
pub open spec fn lookup_spec(files: Map<Seq<char>, FileInfo>, name: Seq<char>) -> Option<FileInfo> {
    if files.contains_key(name) {
        Some(files[name])
    } else {
        None
    }
}

spec fn names_distinct(files: Seq<(String, FileInfo)>) -> bool {
    forall|i: int, j: int|
        0 <= i < files.len() && 0 <= j < files.len() && i != j
            ==> #[trigger] files[i].0@ != #[trigger] files[j].0@
}

spec fn has_name(files: Seq<(String, FileInfo)>, name: Seq<char>) -> bool {
    exists|i: int| 0 <= i < files.len() && #[trigger] files[i].0@ == name
}

spec fn index_of_name(files: Seq<(String, FileInfo)>, name: Seq<char>) -> int {
    choose|i: int| 0 <= i < files.len() && #[trigger] files[i].0@ == name
}

/// The entries as a map from file names to where the files lie.
spec fn files_map(files: Seq<(String, FileInfo)>) -> Map<Seq<char>, FileInfo> {
    Map::new(|name: Seq<char>| has_name(files, name), |name: Seq<char>| files[index_of_name(files, name)].1)
}

/// Replacing or appending the entry at `k` with `(name, file)`, where no other
/// entry has that name, inserts `name` into the map.
proof fn lemma_files_map_insert(
    old_files: Seq<(String, FileInfo)>,
    files: Seq<(String, FileInfo)>,
    k: int,
    name: Seq<char>,
    file: FileInfo,
)
    requires
        names_distinct(old_files),
        names_distinct(files),
        0 <= k < files.len(),
        files[k].0@ == name,
        files[k].1 == file,
        files.len() == old_files.len() || (files.len() == old_files.len() + 1 && k == old_files.len()),
        forall|j: int| 0 <= j < old_files.len() && j != k ==> #[trigger] files[j] == old_files[j],
        k < old_files.len() ==> old_files[k].0@ == name,
    ensures
        files_map(files) == files_map(old_files).insert(name, file),
{
    let old_view = files_map(old_files);
    let new_view = old_view.insert(name, file);
    let view = files_map(files);
    assert forall|m: Seq<char>| #[trigger] view.contains_key(m) <==> new_view.contains_key(m) by {
        if m != name && has_name(files, m) {
            let j = choose|j: int| 0 <= j < files.len() && #[trigger] files[j].0@ == m;
            assert(old_files[j].0@ == m);
        }
        if m != name && has_name(old_files, m) {
            let j = choose|j: int| 0 <= j < old_files.len() && #[trigger] old_files[j].0@ == m;
            assert(files[j].0@ == m);
        }
        if m == name {
            assert(files[k].0@ == m);
        }
    }
    assert forall|m: Seq<char>| #[trigger] view.contains_key(m) implies view[m] == new_view[m] by {
        let j = index_of_name(files, m);
        assert(0 <= j < files.len() && files[j].0@ == m);
        if m == name {
            assert(j == k);
        } else {
            assert(j != k);
            assert(old_files[j].0@ == m);
            let j2 = index_of_name(old_files, m);
            assert(0 <= j2 < old_files.len() && old_files[j2].0@ == m);
            assert(j2 == j);
        }
    }
    assert(view =~= new_view);
}

impl DirectoryManager {
    /// No name occurs twice among the entries.
    pub closed spec fn wf(&self) -> bool {
        names_distinct(self.files@)
    }

    /// The directory as a map from file names to where the files lie.
    pub closed spec fn view(&self) -> Map<Seq<char>, FileInfo> {
        files_map(self.files@)
    }

    /// An empty directory.
    pub fn new() -> (r: Self)
        ensures
            r.wf(),
            r@ == Map::<Seq<char>, FileInfo>::empty(),
    {
        let r = DirectoryManager { files: Vec::new() };
        assert(files_map(r.files@) =~= Map::<Seq<char>, FileInfo>::empty());
        r
    }

    /// Records that the file `file_name` lies where `file` says, replacing
    /// any earlier entry of that name.
    pub fn enter(&mut self, file_name: String, file: FileInfo)
        requires
            old(self).wf(),
        ensures
            final(self).wf(),
            final(self)@ == old(self)@.insert(file_name@, file),
    {
        let ghost old_files = self.files@;
        let ghost name = file_name@;
        let n = self.files.len();
        let mut i: usize = 0;
        while i < n
            invariant
                i <= n,
                n == self.files@.len(),
                self.files@ == old_files,
                old_files == old(self).files@,
                names_distinct(old_files),
                name == file_name@,
                forall|j: int| 0 <= j < i ==> #[trigger] self.files@[j].0@ != name,
            decreases n - i,
        {
            if self.files[i].0 == file_name {
                self.files.set(i, (file_name, file));
                proof {
                    assert forall|a: int, b: int|
                        0 <= a < self.files@.len() && 0 <= b < self.files@.len() && a != b
                            implies #[trigger] self.files@[a].0@ != #[trigger] self.files@[b].0@ by {
                        if a != i && b != i {
                            assert(old_files[a].0@ != old_files[b].0@);
                        } else if a == i {
                            assert(old_files[i as int].0@ != old_files[b].0@);
                        } else {
                            assert(old_files[a].0@ != old_files[i as int].0@);
                        }
                    }
                    lemma_files_map_insert(old_files, self.files@, i as int, name, file);
                }
                return;
            }
            i = i + 1;
        }
        self.files.push((file_name, file));
        proof {
            assert forall|a: int, b: int|
                0 <= a < self.files@.len() && 0 <= b < self.files@.len() && a != b
                    implies #[trigger] self.files@[a].0@ != #[trigger] self.files@[b].0@ by {
                if a != n && b != n {
                    assert(old_files[a].0@ != old_files[b].0@);
                } else if a == n {
                    assert(self.files@[b] == old_files[b]);
                } else {
                    assert(self.files@[a] == old_files[a]);
                }
            }
            lemma_files_map_insert(old_files, self.files@, n as int, name, file);
        }
    }

    /// Where the file `file_name` lies, or `None` where no file of that name
    /// was entered.
    pub fn lookup(&self, file_name: &String) -> (r: Option<FileInfo>)
        requires
            self.wf(),
        ensures
            r == lookup_spec(self@, file_name@),
    {
        let n = self.files.len();
        let mut i: usize = 0;
        while i < n
            invariant
                i <= n,
                n == self.files@.len(),
                self.wf(),
                forall|j: int| 0 <= j < i ==> #[trigger] self.files@[j].0@ != file_name@,
            decreases n - i,
        {
            if self.files[i].0 == *file_name {
                proof {
                    assert(self.files@[i as int].0@ == file_name@);
                    assert(has_name(self.files@, file_name@));
                    let j = index_of_name(self.files@, file_name@);
                    assert(self.files@[j].0@ == file_name@);
                    assert(j == i);
                }
                return Some(self.files[i].1);
            }
            i = i + 1;
        }
        None
    }
}

/// Looking a name up after entering it gives what was entered; looking up
/// any other name gives what it gave before.
pub proof fn law_lookup_after_enter(
    files: Map<Seq<char>, FileInfo>,
    name: Seq<char>,
    file: FileInfo,
    other: Seq<char>,
)
    ensures
        lookup_spec(files.insert(name, file), name) == Some(file),
        other != name ==> lookup_spec(files.insert(name, file), other) == lookup_spec(files, other),
{
}

} // verus!
