use vstd::prelude::*;

use crate::mime::{last_piece, last_piece_of, last_piece_after_separator};
use crate::text::{chars_of, string_of, append_chars, vec_starts_with, vec_eq, starts_with};

verus! {

/// An entry of a served directory: its file name and whether it is a file.
pub struct DirEntryInfo {
    pub name: String,
    pub is_file: bool,
}

/// The last `/`-separated component of a directory path (empty when the
/// path ends with `/`).
pub open spec fn last_dir(path: Seq<char>) -> Seq<char> {
    last_piece(path, '/')
}

/// A file name that may serve as the index of a directory whose last
/// component is `dir_name`: it starts with `index.`, is `index`, or starts
/// with the (non-empty) directory name.
pub open spec fn is_index_name(name: Seq<char>, dir_name: Seq<char>) -> bool {
    ||| starts_with(name, "index."@)
    ||| name == "index"@
    ||| (dir_name.len() > 0 && starts_with(name, dir_name))
}

/// The entries of a directory that qualify as its index: files with an
/// index name.
pub open spec fn qualifies(entry: DirEntryInfo, dir_path: Seq<char>) -> bool {
    entry.is_file && is_index_name(entry.name@, last_dir(dir_path))
}

/// The last component of a directory path.
pub fn last_dir_of(path: &str) -> (r: String)
    ensures
        r@ == last_dir(path@),
{
    string_of(&last_piece_of(path, '/'))
}

/// Whether `name` may be the index of the directory at `dir_path`.
pub fn is_index_candidate(name: &str, dir_path: &str) -> (r: bool)
    ensures
        r == is_index_name(name@, last_dir(dir_path@)),
{
    let n = chars_of(name);
    let dir_name = last_piece_of(dir_path, '/');
    let index_dot = chars_of("index.");
    let index = chars_of("index");
    if vec_starts_with(&n, &index_dot) {
        return true;
    }
    if vec_eq(&n, &index) {
        return true;
    }
    dir_name.len() > 0 && vec_starts_with(&n, &dir_name)
}

/// One step of the scan of a directory: whether this entry is the directory's
/// index, that is, a file with an index name.
pub fn scan_entry(dir_path: &str, entry: &DirEntryInfo) -> (r: bool)
    ensures
        r == qualifies(*entry, dir_path@),
{
    entry.is_file && is_index_candidate(entry.name.as_str(), dir_path)
}

/// The first entry, in the order given, that is a file with an index name;
/// `None` when there is none.
pub fn select_index(dir_path: &str, entries: &Vec<DirEntryInfo>) -> (r: Option<usize>)
    ensures
        match r {
            Some(i) => {
                &&& i < entries@.len()
                &&& qualifies(entries@[i as int], dir_path@)
                &&& forall|j: int| 0 <= j < i ==> !qualifies(#[trigger] entries@[j], dir_path@)
            },
            None => forall|j: int| 0 <= j < entries@.len() ==> !qualifies(#[trigger] entries@[j], dir_path@),
        },
{
    let mut i: usize = 0;
    while i < entries.len()
        invariant
            i <= entries@.len(),
            forall|j: int| 0 <= j < i ==> !qualifies(#[trigger] entries@[j], dir_path@),
        decreases entries@.len() - i,
    {
        if scan_entry(dir_path, &entries[i]) {
            return Some(i);
        }
        i = i + 1;
    }
    None
}

/// The path of a directory entry: `name` appended to `dir` the way
/// `Path::join` does on Unix (an absolute name replaces the directory, and a
/// `/` is put between them unless the directory is empty or already ends
/// with one).
pub open spec fn joined(dir: Seq<char>, name: Seq<char>) -> Seq<char> {
    if name.len() > 0 && name[0] == '/' {
        name
    } else if dir.len() == 0 || dir.last() == '/' {
        dir + name
    } else {
        dir + seq!['/'] + name
    }
}

/// The path of the entry `name` of the directory `dir`.
pub fn entry_path(dir: &str, name: &str) -> (r: String)
    ensures
        r@ == joined(dir@, name@),
{
    let d = chars_of(dir);
    let n = chars_of(name);
    if n.len() > 0 && n[0] == '/' {
        return string_of(&n);
    }
    let mut out = d;
    if out.len() > 0 && out[out.len() - 1] != '/' {
        out.push('/');
    }
    append_chars(&mut out, &n);
    string_of(&out)
}

/// The last component of an entry's path is the entry's name, for a name
/// without `/` (the case of every directory entry name).
pub proof fn entry_path_ends_with_name(dir: Seq<char>, name: Seq<char>)
    requires
        !name.contains('/'),
    ensures
        last_dir(joined(dir, name)) == name,
{
    if name.len() > 0 && name[0] == '/' {
        assert(name.contains('/'));
    } else if dir.len() == 0 || dir.last() == '/' {
        last_piece_after_separator(dir, name, '/');
    } else {
        let a = dir + seq!['/'];
        assert(a.last() == '/');
        assert(a + name =~= dir + seq!['/'] + name);
        last_piece_after_separator(a, name, '/');
    }
}

/// Which names are index names, spelled out: a name is an index of the
/// directory exactly when it begins with the six characters `index.`, is the
/// five characters `index`, or begins with the directory's (non-empty) last
/// component.
pub proof fn index_names_spelled_out(name: Seq<char>, dir_path: Seq<char>)
    ensures
        is_index_name(name, last_dir(dir_path)) <==> {
            ||| (name.len() >= 6 && name.subrange(0, 6) == "index."@)
            ||| name == "index"@
            ||| (last_dir(dir_path).len() > 0 && last_dir(dir_path).len() <= name.len()
                && name.subrange(0, last_dir(dir_path).len() as int) == last_dir(dir_path))
        },
{
    reveal_strlit("index.");
    reveal_strlit("index");
    assert("index."@.len() == 6);
}

/// Every name that begins with `index.` is an index candidate of every
/// directory.
pub proof fn index_dot_names_are_candidates(name: Seq<char>, dir_path: Seq<char>)
    requires
        name.len() >= 6,
        name.subrange(0, 6) == "index."@,
    ensures
        is_index_name(name, last_dir(dir_path)),
{
    index_names_spelled_out(name, dir_path);
}

/// The path of an entry is the directory, then a `/` exactly when the
/// directory is not empty and does not already end with one, then the name
/// (for a name that does not start with `/`). In particular the directory is
/// a prefix of the entry's path and the name is its suffix.
pub proof fn entry_path_extends_dir(dir: Seq<char>, name: Seq<char>)
    requires
        !(name.len() > 0 && name[0] == '/'),
    ensures
        joined(dir, name).take(dir.len() as int) == dir,
        joined(dir, name).skip(joined(dir, name).len() - name.len()) == name,
        joined(dir, name).len() == dir.len() + name.len() + (if dir.len() > 0 && dir[dir.len() - 1] != '/' { 1int } else { 0int }),
        dir.len() > 0 && dir[dir.len() - 1] != '/' ==> joined(dir, name)[dir.len() as int] == '/',
{
    let j = joined(dir, name);
    if dir.len() == 0 || dir.last() == '/' {
        assert(j.take(dir.len() as int) =~= dir);
        assert(j.skip(j.len() - name.len()) =~= name);
    } else {
        assert(j.take(dir.len() as int) =~= dir);
        assert(j.skip(j.len() - name.len()) =~= name);
        assert(dir[dir.len() - 1] == dir.last());
    }
}

} // verus!
