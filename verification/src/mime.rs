use vstd::prelude::*;

use vstd::hash_map::StringHashMap;

use crate::text::{chars_of, string_of};

verus! {

/// The characters after the last `sep` in `s` (all of `s` when `sep` does
/// not occur): the last piece of `s.split(sep)`.
pub open spec fn last_piece(s: Seq<char>, sep: char) -> Seq<char>
    decreases s.len(),
{
    if s.len() == 0 {
        Seq::empty()
    } else if s.last() == sep {
        Seq::empty()
    } else {
        last_piece(s.drop_last(), sep).push(s.last())
    }
}

/// What follows the last separator: for a text `b` without `sep`, placed
/// after an empty text or after a text ending in `sep`, the last piece is `b`.
pub proof fn last_piece_after_separator(a: Seq<char>, b: Seq<char>, sep: char)
    requires
        !b.contains(sep),
        a.len() == 0 || a.last() == sep,
    ensures
        last_piece(a + b, sep) == b,
    decreases b.len(),
{
    if b.len() == 0 {
        assert(a + b =~= a);
        if a.len() == 0 {
            assert(b =~= Seq::<char>::empty());
        }
    } else {
        let bd = b.drop_last();
        assert(!bd.contains(sep)) by {
            if bd.contains(sep) {
                let k = choose|k: int| 0 <= k < bd.len() && bd[k] == sep;
                assert(b[k] == sep);
            }
        }
        last_piece_after_separator(a, bd, sep);
        assert((a + b).drop_last() =~= a + bd);
        assert((a + b).last() == b.last());
        assert(b[b.len() - 1] == b.last());
        assert(bd.push(b.last()) =~= b);
    }
}

/// The extension is what follows the last dot: for `b` without a dot, the
/// extension of `a.b` is `b`, and a path without a dot is its own extension.
pub proof fn extension_follows_last_dot(a: Seq<char>, b: Seq<char>)
    requires
        !b.contains('.'),
    ensures
        extension(a + seq!['.'] + b) == b,
        extension(b) == b,
{
    let x = a + seq!['.'];
    assert(x.last() == '.');
    assert(x + b =~= a + seq!['.'] + b);
    last_piece_after_separator(x, b, '.');
    last_piece_after_separator(Seq::empty(), b, '.');
    assert(Seq::<char>::empty() + b =~= b);
}

/// The last piece of `s` split at `sep`.
pub fn last_piece_of(s: &str, sep: char) -> (r: Vec<char>)
    ensures
        r@ == last_piece(s@, sep),
{
    let v = chars_of(s);
    let mut cur: Vec<char> = Vec::new();
    let mut i: usize = 0;
    assert(v@.take(0) =~= Seq::<char>::empty());
    while i < v.len()
        invariant
            i <= v.len(),
            cur@ == last_piece(v@.take(i as int), sep),
        decreases v.len() - i,
    {
        assert(v@.take(i + 1).drop_last() =~= v@.take(i as int));
        assert(v@.take(i + 1).last() == v@[i as int]);
        if v[i] == sep {
            cur = Vec::new();
        } else {
            cur.push(v[i]);
        }
        i = i + 1;
    }
    assert(v@.take(v@.len() as int) =~= v@);
    cur
}

/// The extension of a file path: what follows its last `.` (the whole path
/// when it has none).
pub open spec fn extension(path: Seq<char>) -> Seq<char> {
    last_piece(path, '.')
}

/// The content type sent for files whose extension the table does not know.
pub open spec fn default_content_type() -> Seq<char> {
    "application/octet-stream"@
}

/// A table from file extensions to content types, kept in a string-keyed
/// hash map.
pub struct MimeTable {
    map: StringHashMap<String>,
}

impl View for MimeTable {
    type V = Map<Seq<char>, Seq<char>>;

    /// The table as a map from extension to content type.
    closed spec fn view(&self) -> Map<Seq<char>, Seq<char>> {
        self.map@.map_values(|ct: String| ct@)
    }
}

impl MimeTable {
    /// An empty table.
    pub fn new() -> (t: MimeTable)
        ensures
            t@ == Map::<Seq<char>, Seq<char>>::empty(),
    {
        let t = MimeTable { map: StringHashMap::new() };
        assert(t@ =~= Map::<Seq<char>, Seq<char>>::empty());
        t
    }

    /// A table with the usual content types of web pages, style sheets,
    /// scripts, JSON documents and images.
    pub fn with_common_types() -> (t: MimeTable)
        ensures
            t@ == Map::<Seq<char>, Seq<char>>::empty()
                .insert("html"@, "text/html"@)
                .insert("css"@, "text/css"@)
                .insert("js"@, "application/javascript"@)
                .insert("json"@, "application/json"@)
                .insert("png"@, "image/png"@)
                .insert("jpg"@, "image/jpeg"@)
                .insert("jpeg"@, "image/jpeg"@)
                .insert("gif"@, "image/gif"@),
    {
        let mut t = MimeTable::new();
        t.insert("html", "text/html");
        t.insert("css", "text/css");
        t.insert("js", "application/javascript");
        t.insert("json", "application/json");
        t.insert("png", "image/png");
        t.insert("jpg", "image/jpeg");
        t.insert("jpeg", "image/jpeg");
        t.insert("gif", "image/gif");
        t
    }

    /// The number of extensions in the table.
    pub fn len(&self) -> (n: usize)
        ensures
            n == self@.dom().len(),
    {
        let n = self.map.len();
        assert(self@.dom() =~= self.map@.dom());
        n
    }

    /// The content type recorded for an extension, if any.
    pub fn get(&self, ext: &str) -> (r: Option<String>)
        ensures
            r.is_some() == self@.dom().contains(ext@),
            r matches Some(ct) ==> ct@ == self@[ext@],
    {
        match self.map.get(ext) {
            Some(ct) => Some(ct.clone()),
            None => None,
        }
    }

    /// Records a content type for an extension, replacing any earlier one,
    /// and gives back the content type it replaced.
    pub fn insert(&mut self, ext: &str, content_type: &str) -> (old_ct: Option<String>)
        ensures
            final(self)@ == old(self)@.insert(ext@, content_type@),
            old_ct.is_some() == old(self)@.dom().contains(ext@),
            old_ct matches Some(ct) ==> ct@ == old(self)@[ext@],
    {
        let previous = self.get(ext);
        self.map.insert(ext.to_owned(), content_type.to_owned());
        assert(self@ =~= old(self)@.insert(ext@, content_type@));
        previous
    }
}

/// The content type for a file: the table's entry for the file's extension,
/// or `application/octet-stream` when the table has none.
pub fn content_type_for(mime: &MimeTable, path: &str) -> (r: String)
    ensures
        r@ == (if mime@.dom().contains(extension(path@)) {
            mime@[extension(path@)]
        } else {
            default_content_type()
        }),
        !mime@.dom().contains(extension(path@)) ==> r@ == "application/octet-stream"@,
{
    let ext = string_of(&last_piece_of(path, '.'));
    match mime.get(ext.as_str()) {
        Some(ct) => ct,
        None => "application/octet-stream".to_owned(),
    }
}

} // verus!
