use vstd::prelude::*;

use crate::error::Error;
use crate::store::{markdown_extension, toml_extension};
use crate::text::chars_of;

verus! {

// ---------------------------------------------------------------------------
// Directory entries
// ---------------------------------------------------------------------------

/// The kind of a file system object.
#[derive(Debug, Clone, Copy, PartialEq, Eq)]
pub enum DescriptorType {
    Unknown,
    BlockDevice,
    CharacterDevice,
    Directory,
    Fifo,
    SymbolicLink,
    RegularFile,
    Socket,
}

/// An entry of a directory listing: its kind and its name.
#[derive(Debug)]
pub struct DirectoryEntry {
    pub type_: DescriptorType,
    pub name: String,
}

/// Whether the entry is a regular file.
pub fn is_regular_file(entry: &DirectoryEntry) -> (b: bool)
    ensures
        b == (entry.type_ is RegularFile),
{
    matches!(entry.type_, DescriptorType::RegularFile)
}

/// Whether the entry is a directory.
pub fn is_directory(entry: &DirectoryEntry) -> (b: bool)
    ensures
        b == (entry.type_ is Directory),
{
    matches!(entry.type_, DescriptorType::Directory)
}

/// Whether `s` ends with `suffix`.
fn ends_with(s: &str, suffix: &str) -> (b: bool)
    ensures
        b == suffix@.is_suffix_of(s@),
{
    let v = chars_of(s);
    let w = chars_of(suffix);
    if w.len() > v.len() {
        return false;
    }
    let off = v.len() - w.len();
    let mut k: usize = 0;
    while k < w.len()
        invariant
            v@ == s@,
            w@ == suffix@,
            off + w.len() == v.len(),
            k <= w.len(),
            forall|j: int| 0 <= j < k ==> w@[j] == v@[off + j],
        decreases w.len() - k,
    {
        if w[k] != v[off + k] {
            assert(v@.subrange(off as int, v.len() as int)[k as int] == v@[off + k]);
            assert(w@[k as int] != v@.subrange(off as int, v.len() as int)[k as int]);
            assert(!(w@ =~= v@.subrange(off as int, v.len() as int)));
            return false;
        }
        k = k + 1;
    }
    assert(w@ =~= v@.subrange(off as int, v.len() as int));
    true
}

/// A regular file whose name ends with `suffix`.
pub open spec fn is_file_with_suffix(entry: DirectoryEntry, suffix: Seq<char>) -> bool {
    entry.type_ is RegularFile && suffix.is_suffix_of(entry.name@)
}

/// A filter that keeps the regular files whose name ends with `suffix`.
pub fn file_has_suffix(suffix: &str) -> (f: impl Fn(&DirectoryEntry) -> bool)
    ensures
        forall|e: &DirectoryEntry| #[trigger] f.requires((e,)),
        forall|e: &DirectoryEntry, b: bool|
            #[trigger] f.ensures((e,), b) ==> b == is_file_with_suffix(*e, suffix@),
{
    let wanted = suffix.to_owned();
    move |entry: &DirectoryEntry| -> (b: bool)
        ensures
            b == is_file_with_suffix(*entry, wanted@),
        { is_regular_file(entry) && ends_with(entry.name.as_str(), wanted.as_str()) }
}

/// The entries that are regular files named with `suffix`, in order.
pub open spec fn files_with_suffix(entries: Seq<DirectoryEntry>, suffix: Seq<char>) -> Seq<
    DirectoryEntry,
>
    decreases entries.len(),
{
    if entries.len() == 0 {
        entries
    } else {
        let rest = files_with_suffix(entries.drop_last(), suffix);
        if is_file_with_suffix(entries.last(), suffix) {
            rest.push(entries.last())
        } else {
            rest
        }
    }
}

/// Keeps the entries that are regular files whose name ends with `suffix`,
/// in order: the files that a listing offers for that extension.
pub fn select_files(entries: Vec<DirectoryEntry>, suffix: &str) -> (r: Vec<DirectoryEntry>)
    ensures
        r@ == files_with_suffix(entries@, suffix@),
{
    let keep = file_has_suffix(suffix);
    let ghost es = entries@;
    let mut r: Vec<DirectoryEntry> = Vec::new();
    for e in it: entries.into_iter()
        invariant
            it.seq() == es,
            forall|x: &DirectoryEntry| #[trigger] keep.requires((x,)),
            forall|x: &DirectoryEntry, b: bool|
                #[trigger] keep.ensures((x,), b) ==> b == is_file_with_suffix(*x, suffix@),
            r@ == files_with_suffix(es.take(it.index() as int), suffix@),
    {
        let ghost i = it.index() as int;
        proof {
            assert(es.take(i + 1).drop_last() =~= es.take(i));
            assert(es.take(i + 1).last() == es[i]);
        }
        if keep(&e) {
            r.push(e);
        }
    }
    assert(es.take(es.len() as int) =~= es);
    r
}

/// The message of a missing entry.
pub open spec fn no_entry_message() -> Seq<char> {
    seq!['N', 'o', ' ', 'e', 'n', 't', 'r', 'y', ' ', 'f', 'o', 'u', 'n', 'd']
}

/// `entries[i]` is a regular file named `name`.
pub open spec fn is_file_named(entry: DirectoryEntry, name: Seq<char>) -> bool {
    entry.type_ is RegularFile && entry.name@ == name
}

/// The first entry that is a regular file named `name`; [`Error::Io`] with
/// "No entry found" when there is none.
pub fn first_entry_named(entries: Vec<DirectoryEntry>, name: &str) -> (r: Result<
    DirectoryEntry,
    Error,
>)
    ensures
        r is Ok <==> exists|i: int| 0 <= i < entries.len() && is_file_named(#[trigger] entries@[i], name@),
        r matches Ok(e) ==> exists|i: int|
            0 <= i < entries.len() && #[trigger] entries@[i] == e && is_file_named(e, name@) && forall|j: int|
                0 <= j < i ==> !is_file_named(#[trigger] entries@[j], name@),
        r matches Err(e) ==> (e matches Error::Io(m) && m@ == no_entry_message()),
{
    let wanted = name.to_owned();
    let ghost es = entries@;
    for e in it: entries.into_iter()
        invariant
            it.seq() == es,
            wanted@ == name@,
            forall|j: int| 0 <= j < it.index() ==> !is_file_named(#[trigger] es[j], name@),
    {
        if is_regular_file(&e) && e.name == wanted {
            assert(es[it.index() as int] == e);
            return Ok(e);
        }
    }
    proof {
        reveal_strlit("No entry found");
    }
    let m = "No entry found".to_owned();
    assert(m@ =~= no_entry_message());
    Err(Error::Io(m))
}

// ---------------------------------------------------------------------------
// Files
// ---------------------------------------------------------------------------

/// What `Path::file_stem` gives of a path, as text.
pub uninterp spec fn path_file_stem(path: Seq<char>) -> Option<Seq<char>>;

/// The position of the last `.` in `n`, or -1 when there is none.
pub open spec fn last_dot(n: Seq<char>) -> int
    decreases n.len(),
{
    if n.len() == 0 {
        -1
    } else if n.last() == '.' {
        n.len() - 1
    } else {
        last_dot(n.drop_last())
    }
}

/// A name that is a single normal path component on every target: not
/// empty, no `/`, `\\` or `:` (separators or prefixes on some targets), and
/// neither `.` nor `..`. Its file name is itself.
pub open spec fn plain_file_name(n: Seq<char>) -> bool {
    &&& n.len() > 0
    &&& !n.contains('/')
    &&& !n.contains('\\')
    &&& !n.contains(':')
    &&& n != seq!['.']
    &&& n != seq!['.', '.']
}

/// The stem of a plain file name, as `Path::file_stem` documents it: the
/// whole name when it holds no `.` or only a leading one, otherwise the part
/// before the last `.`.
pub open spec fn stem_of_name(n: Seq<char>) -> Seq<char> {
    if last_dot(n) <= 0 {
        n
    } else {
        n.take(last_dot(n))
    }
}

/// `std::path::Path::new(path).file_stem()`, as text: the name that
/// `path_file_stem` gives it, and for a plain file name the stem that the
/// documentation describes.
#[verifier::external_body]
fn file_stem(path: &str) -> (r: Option<String>)
    ensures
        r is Some <==> path_file_stem(path@) is Some,
        r matches Some(s) ==> path_file_stem(path@) == Some(s@),
        plain_file_name(path@) ==> r is Some,
        r matches Some(s) ==> (plain_file_name(path@) ==> s@ == stem_of_name(path@)),
{
    std::path::Path::new(path).file_stem().and_then(|s| s.to_str()).map(|s| s.to_owned())
}

/// A file of a directory: its name and the descriptor it is open with.
pub struct File<D> {
    pub name: String,
    pub descriptor: D,
}

impl<D> File<D> {
    /// The id of the record the file holds: the stem of its name (the name
    /// without its extension), or the empty text when it has none.
    pub fn id(&self) -> (r: String)
        ensures
            match path_file_stem(self.name@) {
                Some(s) => r@ == s,
                None => r@ == Seq::<char>::empty(),
            },
            plain_file_name(self.name@) ==> r@ == stem_of_name(self.name@),
    {
        match file_stem(self.name.as_str()) {
            Some(s) => s,
            None => String::new(),
        }
    }
}

// ---------------------------------------------------------------------------
// Directories
// ---------------------------------------------------------------------------

/// A directory: its path and the descriptor it is open with.
pub struct Directory<D> {
    pub name: String,
    pub descriptor: D,
}

impl<D> From<(D, String)> for Directory<D> {
    fn from(preopen: (D, String)) -> (r: Directory<D>) {
        Directory { name: preopen.1, descriptor: preopen.0 }
    }
}

impl<D> vstd::std_specs::convert::FromSpecImpl<(D, String)> for Directory<D> {
    open spec fn obeys_from_spec() -> bool {
        true
    }

    open spec fn from_spec(preopen: (D, String)) -> Directory<D> {
        Directory { name: preopen.1, descriptor: preopen.0 }
    }
}

/// The path of the directory that holds the lyrics and playlists.
pub open spec fn default_preopen_path() -> Seq<char> {
    seq!['/']
}

/// The message when that directory is not among the preopened ones.
pub open spec fn no_preopen_message() -> Seq<char> {
    seq![
        'N', 'o', ' ', 'p', 'r', 'e', 'o', 'p', 'e', 'n', ' ', 'f', 'o', 'u', 'n', 'd', ' ',
        'w', 'i', 't', 'h', ' ', 'p', 'a', 't', 'h', ' ',
    ] + default_preopen_path()
}

impl<D> Directory<D> {
    /// The root directory of the store: the first of the preopened
    /// directories whose path is the default one; [`Error::Io`] when there
    /// is none.
    pub fn new_root(preopens: Vec<(D, String)>) -> (r: Result<Directory<D>, Error>)
        ensures
            r is Ok <==> exists|i: int|
                0 <= i < preopens.len() && (#[trigger] preopens@[i]).1@ == default_preopen_path(),
            r matches Ok(d) ==> exists|i: int|
                0 <= i < preopens.len() && #[trigger] preopens@[i].1@ == default_preopen_path()
                    && d.descriptor == preopens@[i].0 && d.name == preopens@[i].1 && forall|j: int|
                    0 <= j < i ==> (#[trigger] preopens@[j]).1@ != default_preopen_path(),
            r matches Err(e) ==> (e matches Error::Io(m) && m@ == no_preopen_message()),
    {
        proof {
            reveal_strlit("/");
            reveal_strlit("No preopen found with path ");
        }
        let root = "/".to_owned();
        assert(root@ =~= default_preopen_path());
        let ghost ps = preopens@;
        for preopen in it: preopens.into_iter()
            invariant
                it.seq() == ps,
                root@ == default_preopen_path(),
                forall|j: int| 0 <= j < it.index() ==> (#[trigger] ps[j]).1@ != default_preopen_path(),
        {
            if preopen.1 == root {
                assert(ps[it.index() as int] == preopen);
                return Ok(Directory::from(preopen));
            }
        }
        let mut m = "No preopen found with path ".to_owned();
        m.append(root.as_str());
        assert(m@ =~= no_preopen_message());
        Err(Error::Io(m))
    }
}

// ---------------------------------------------------------------------------
// Laws
// ---------------------------------------------------------------------------

/// The file of a record is named by its id and the extension, and the id
/// of that file is the record's id again, for an id that is not empty and
/// holds no `/`, `\\` or `:`.
pub proof fn law_file_id_of_record_file(id: Seq<char>)
    requires
        id.len() > 0,
        !id.contains('/'),
        !id.contains('\\'),
        !id.contains(':'),
    ensures
        plain_file_name(id + markdown_extension()),
        stem_of_name(id + markdown_extension()) == id,
        plain_file_name(id + toml_extension()),
        stem_of_name(id + toml_extension()) == id,
{
    lemma_stem_with_extension(id, markdown_extension());
    lemma_stem_with_extension(id, toml_extension());
}

proof fn lemma_last_dot_after(id: Seq<char>, ext: Seq<char>)
    requires
        ext.len() > 0,
        ext[0] == '.',
        forall|j: int| 1 <= j < ext.len() ==> ext[j] != '.',
    ensures
        last_dot(id + ext) == id.len(),
    decreases ext.len(),
{
    if ext.len() == 1 {
        assert((id + ext).last() == '.');
    } else {
        assert((id + ext).drop_last() =~= id + ext.drop_last());
        assert((id + ext).last() == ext[ext.len() - 1]);
        lemma_last_dot_after(id, ext.drop_last());
    }
}

proof fn lemma_not_in_concat(id: Seq<char>, ext: Seq<char>, c: char)
    requires
        !id.contains(c),
        forall|j: int| 0 <= j < ext.len() ==> ext[j] != c,
    ensures
        !(id + ext).contains(c),
{
    let n = id + ext;
    if n.contains(c) {
        let j = choose|j: int| 0 <= j < n.len() && #[trigger] n[j] == c;
        if j < id.len() {
            assert(id[j] == c);
        } else {
            assert(ext[j - id.len()] == c);
        }
    }
}

proof fn lemma_stem_with_extension(id: Seq<char>, ext: Seq<char>)
    requires
        id.len() > 0,
        !id.contains('/'),
        !id.contains('\\'),
        !id.contains(':'),
        ext.len() > 1,
        ext[0] == '.',
        forall|j: int|
            1 <= j < ext.len() ==> ext[j] != '.' && ext[j] != '/' && ext[j] != '\\' && ext[j]
                != ':',
    ensures
        plain_file_name(id + ext),
        stem_of_name(id + ext) == id,
{
    let n = id + ext;
    lemma_last_dot_after(id, ext);
    assert(n.take(id.len() as int) =~= id);
    lemma_not_in_concat(id, ext, '/');
    lemma_not_in_concat(id, ext, '\\');
    lemma_not_in_concat(id, ext, ':');
    assert(n != seq!['.']) by {
        assert(n.len() >= 3);
    }
    assert(n != seq!['.', '.']) by {
        assert(n.len() >= 3);
    }
}

/// The files selected for a suffix are exactly the entries of the listing
/// that are regular files whose name ends with the suffix, each kept, in the
/// order of the listing.
pub proof fn law_select_files_is_filter(entries: Seq<DirectoryEntry>, suffix: Seq<char>)
    ensures
        files_with_suffix(entries, suffix) == entries.filter(
            |e: DirectoryEntry| is_file_with_suffix(e, suffix),
        ),
    decreases entries.len(),
{
    reveal(Seq::filter);
    if entries.len() > 0 {
        law_select_files_is_filter(entries.drop_last(), suffix);
    }
}

} // verus!
