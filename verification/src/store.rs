use vstd::prelude::*;
use vstd::utf8::{decode_utf8, encode_utf8, valid_utf8};

use crate::error::Error;
use crate::part::{
    delimiter, extract_delimited_frontmatter, law_parts_roundtrip, parts_text, text_parts,
    to_parts, to_text, well_formed_parts,
};
use crate::text::{
    decimal, has_occurrence, lemma_split_from_rest, lemma_split_from_scan, occurs_at, split_from,
    split_str,
};

verus! {

// ---------------------------------------------------------------------------
// Records
// ---------------------------------------------------------------------------

/// A lyric: its id, its title and its parts, each a list of lines.
#[derive(Debug)]
pub struct Lyric {
    pub id: String,
    pub title: String,
    pub parts: Vec<Vec<String>>,
}

/// A playlist: its id, its title and the ids of its lyrics.
#[derive(Debug)]
pub struct Playlist {
    pub id: String,
    pub title: String,
    pub members: Vec<String>,
}

/// The front matter of a lyric document: the title and, optionally, a hash
/// of the lyric.
#[derive(Debug)]
pub struct LyricMeta {
    pub title: String,
    pub hash: Option<String>,
}

/// A lyric as a document gives it, without an id.
#[derive(Debug)]
pub struct LyricPost {
    pub title: String,
    pub parts: Vec<Vec<String>>,
}

/// A lyric as plain values.
pub struct LyricView {
    pub id: Seq<char>,
    pub title: Seq<char>,
    pub parts: Seq<Seq<Seq<char>>>,
}

impl View for Lyric {
    type V = LyricView;

    open spec fn view(&self) -> LyricView {
        LyricView { id: self.id@, title: self.title@, parts: self.parts.deep_view() }
    }
}

/// A playlist as plain values.
pub struct PlaylistView {
    pub id: Seq<char>,
    pub title: Seq<char>,
    pub members: Seq<Seq<char>>,
}

impl View for Playlist {
    type V = PlaylistView;

    open spec fn view(&self) -> PlaylistView {
        PlaylistView { id: self.id@, title: self.title@, members: self.members.deep_view() }
    }
}

// ---------------------------------------------------------------------------
// File names
// ---------------------------------------------------------------------------

/// The extension of lyric files.
pub open spec fn markdown_extension() -> Seq<char> {
    seq!['.', 'm', 'd']
}

/// The extension of playlist files.
pub open spec fn toml_extension() -> Seq<char> {
    seq!['.', 't', 'o', 'm', 'l']
}

/// The name of the file that holds the lyric `id`.
pub fn lyric_file_name(id: &str) -> (r: String)
    ensures
        r@ == id@ + markdown_extension(),
{
    let mut r = id.to_owned();
    proof {
        reveal_strlit(".md");
        assert(".md"@ =~= markdown_extension());
    }
    r.append(".md");
    r
}

/// The name of the file that holds the playlist `id`.
pub fn playlist_file_name(id: &str) -> (r: String)
    ensures
        r@ == id@ + toml_extension(),
{
    let mut r = id.to_owned();
    proof {
        reveal_strlit(".toml");
        assert(".toml"@ =~= toml_extension());
    }
    r.append(".toml");
    r
}

// ---------------------------------------------------------------------------
// Stored bytes
// ---------------------------------------------------------------------------

/// The text (`Display`) of the `FromUtf8Error` that `String::from_utf8`
/// gives for invalid `bytes`.
pub uninterp spec fn utf8_error_text(bytes: Seq<u8>) -> Seq<char>;

/// `String::from_utf8`: valid UTF-8 is decoded to its characters; any other
/// bytes give the text of the error.
#[verifier::external_body]
fn string_from_utf8(bytes: Vec<u8>) -> (r: Result<String, String>)
    ensures
        r is Ok <==> valid_utf8(bytes@),
        r matches Ok(s) ==> s@ == decode_utf8(bytes@),
        r matches Err(m) ==> m@ == utf8_error_text(bytes@),
{
    String::from_utf8(bytes).map_err(|e| e.to_string())
}

/// The text of stored bytes: valid UTF-8 gives its characters, anything
/// else [`Error::Utf8`] with the text of the UTF-8 error.
pub fn text_from_bytes(bytes: Vec<u8>) -> (r: Result<String, Error>)
    ensures
        r is Ok <==> valid_utf8(bytes@),
        r matches Ok(s) ==> s@ == decode_utf8(bytes@),
        r matches Err(e) ==> (e matches Error::Utf8(m) && m@ == utf8_error_text(bytes@)),
{
    match string_from_utf8(bytes) {
        Ok(s) => Ok(s),
        Err(m) => Err(Error::Utf8(m)),
    }
}

// ---------------------------------------------------------------------------
// Entity tags
// ---------------------------------------------------------------------------

/// The 128-bit hash of the data that `etag::EntityTag::const_from_data`
/// computes (XXH3).
pub uninterp spec fn entity_tag_hash(data: Seq<u8>) -> u128;

/// The text of a strong entity tag of `data`: its length and its hash in
/// decimal, joined by `-`, in double quotes.
pub open spec fn entity_tag_text(data: Seq<u8>) -> Seq<char> {
    seq!['"'] + decimal(data.len()) + seq!['-'] + decimal(entity_tag_hash(data) as nat) + seq![
        '"',
    ]
}

/// `etag::EntityTag::const_from_data(data).to_string()`: the strong tag
/// `"<len>-<hash>"`, the hash being what `entity_tag_hash` names.
#[verifier::external_body]
fn strong_entity_tag(data: &[u8]) -> (r: String)
    requires
        data@.len() <= u64::MAX,
    ensures
        r@ == seq!['"'] + decimal(data@.len()) + seq!['-'] + decimal(
            entity_tag_hash(data@) as nat,
        ) + seq!['"'],
{
    etag::EntityTag::const_from_data(data).to_string()
}

impl LyricMeta {
    /// The front matter of `lyric`, given `serialized`, the TOML text of the
    /// whole lyric: its title, and as hash the entity tag of that text.
    pub fn from_lyric(lyric: Lyric, serialized: &str) -> (r: LyricMeta)
        ensures
            r.title == lyric.title,
            r.hash matches Some(h) && h@ == entity_tag_text(encode_utf8(serialized@)),
    {
        let bytes = serialized.as_bytes();
        let n = bytes.len();
        assert(bytes@.len() <= u64::MAX) by {
            assert(n as int == bytes@.len());
        }
        let hash = strong_entity_tag(bytes);
        LyricMeta { title: lyric.title, hash: Some(hash) }
    }
}

// ---------------------------------------------------------------------------
// Lyric documents
// ---------------------------------------------------------------------------

/// The document that stores a lyric: its front matter between `+++` lines,
/// an empty line, then the text of its parts.
pub open spec fn lyric_document_text(meta: Seq<char>, parts: Seq<Seq<Seq<char>>>) -> Seq<char> {
    delimiter() + meta + delimiter() + seq!['\n'] + parts_text(parts)
}

/// Writes the document of a lyric from its front matter `meta_toml` and its
/// parts.
pub fn lyric_document(meta_toml: &str, parts: &[Vec<String>]) -> (r: String)
    ensures
        r@ == lyric_document_text(meta_toml@, parts.deep_view()),
{
    proof {
        reveal_strlit("+++\n");
        reveal_strlit("+++\n\n");
        assert("+++\n"@ =~= delimiter());
        assert("+++\n\n"@ =~= delimiter() + seq!['\n']);
    }
    let mut r = String::new();
    r.append("+++\n");
    r.append(meta_toml);
    r.append("+++\n\n");
    let text = to_text(parts);
    r.append(text.as_str());
    assert(r@ =~= lyric_document_text(meta_toml@, parts.deep_view()));
    r
}

/// No match of the delimiter starts inside `a` in `s`, where `a` stands at
/// `o` and a delimiter follows it.
proof fn lemma_no_match_before_delimiter(s: Seq<char>, a: Seq<char>, o: int)
    requires
        0 <= o,
        o + a.len() + 4 <= s.len(),
        s.subrange(o, o + a.len()) == a,
        s.subrange(o + a.len(), o + a.len() + 4) == delimiter(),
        !has_occurrence(a, delimiter()),
    ensures
        forall|j: int| o <= j < o + a.len() ==> !occurs_at(s, delimiter(), j),
{
    assert forall|j: int| o <= j < o + a.len() implies !occurs_at(s, delimiter(), j) by {
        if occurs_at(s, delimiter(), j) {
            assert(s.subrange(j, j + 4)[3] == '\n');
            if j + 4 <= o + a.len() {
                assert(a.subrange(j - o, j - o + 4) =~= s.subrange(j, j + 4));
                assert(occurs_at(a, delimiter(), j - o));
            } else {
                let k = j + 3 - (o + a.len());
                assert(0 <= k < 3);
                assert(s[j + 3] == s.subrange(o + a.len(), o + a.len() + 4)[k]);
            }
        }
    }
}

/// How a lyric document splits at its delimiters: an empty piece, the front
/// matter, and the body (a line break and the text of the parts), provided
/// neither the front matter nor the text holds a delimiter.
pub proof fn lemma_document_pieces(meta: Seq<char>, parts: Seq<Seq<Seq<char>>>)
    requires
        !has_occurrence(meta, delimiter()),
        !has_occurrence(parts_text(parts), delimiter()),
    ensures
        split_str(lyric_document_text(meta, parts), delimiter()) == seq![
            Seq::<char>::empty(),
            meta,
            seq!['\n'] + parts_text(parts),
        ],
{
    let d = delimiter();
    let t = parts_text(parts);
    let s = lyric_document_text(meta, parts);
    let m = meta.len() as int;
    let n = s.len() as int;
    assert(s.subrange(0, 4) =~= d);
    assert(s.subrange(4, 4 + m) =~= meta);
    assert(s.subrange(4 + m, 8 + m) =~= d);
    assert(s.subrange(8 + m, n) =~= seq!['\n'] + t);
    assert(s.subrange(0, 0) =~= Seq::<char>::empty());
    lemma_no_match_before_delimiter(s, meta, 4);
    lemma_split_from_scan(s, d, 4, 4, 4 + m);
    assert forall|j: int| 8 + m <= j implies !occurs_at(s, d, j) by {
        if occurs_at(s, d, j) {
            if j == 8 + m {
                assert(s.subrange(j, j + 4)[0] == s[j]);
            } else {
                assert(t.subrange(j - 9 - m, j - 9 - m + 4) =~= s.subrange(j, j + 4));
                assert(occurs_at(t, d, j - 9 - m));
            }
        }
    }
    lemma_split_from_rest(s, d, 8 + m, 8 + m);
    assert(split_from(s, d, 0, 0) == seq![s.subrange(0, 0)] + split_from(s, d, 4, 4));
}

/// Reading a lyric back from the document it was stored in gives its front
/// matter and its parts: the document splits into exactly three pieces at
/// its delimiters, the second is the front matter and the parts of the third
/// are the lyric's parts. This holds for parts as `to_parts` produces them,
/// where neither the front matter nor the text of the parts holds a
/// delimiter line `+++`.
pub proof fn law_document_roundtrip(meta: Seq<char>, parts: Seq<Seq<Seq<char>>>)
    requires
        well_formed_parts(parts),
        !has_occurrence(meta, delimiter()),
        !has_occurrence(parts_text(parts), delimiter()),
    ensures
        split_str(lyric_document_text(meta, parts), delimiter()).len() == 3,
        split_str(lyric_document_text(meta, parts), delimiter())[1] == meta,
        text_parts(split_str(lyric_document_text(meta, parts), delimiter())[2]) == parts,
{
    lemma_document_pieces(meta, parts);
    law_parts_roundtrip(parts);
}

// ---------------------------------------------------------------------------
// Reading documents
// ---------------------------------------------------------------------------

impl LyricPost {
    /// Reads a lyric document: it must split into exactly three pieces at its
    /// `+++` delimiter lines; `read_meta` reads the front matter (the second
    /// piece), whose title the post takes; the parts are those of the body
    /// (the third piece).
    pub fn parse<F: Fn(&str) -> Result<LyricMeta, Error>>(s: &str, read_meta: F) -> (r: Result<
        LyricPost,
        Error,
    >)
        requires
            forall|x: &str| #[trigger] read_meta.requires((x,)),
        ensures
            split_str(s@, delimiter()).len() != 3 ==> (r matches Err(Error::NotFound(m))
                && m@.len() == 0),
            split_str(s@, delimiter()).len() == 3 && (forall|x: &str, res: Result<LyricMeta, Error>|
                x@ == split_str(s@, delimiter())[1] && #[trigger] read_meta.ensures((x,), res)
                    ==> res is Ok) ==> r is Ok,
            r matches Ok(post) ==> {
                &&& split_str(s@, delimiter()).len() == 3
                &&& post.parts.deep_view() == text_parts(split_str(s@, delimiter())[2])
                &&& exists|x: &str, meta: LyricMeta|
                    x@ == split_str(s@, delimiter())[1] && #[trigger] read_meta.ensures(
                        (x,),
                        Ok::<LyricMeta, Error>(meta),
                    ) && post.title == meta.title
            },
            split_str(s@, delimiter()).len() == 3 ==> (r matches Err(e) ==> exists|x: &str|
                x@ == split_str(s@, delimiter())[1] && #[trigger] read_meta.ensures(
                    (x,),
                    Err::<LyricMeta, Error>(e),
                )),
    {
        let (frontmatter, content) = match extract_delimited_frontmatter(s) {
            Ok(pieces) => pieces,
            Err(e) => return Err(e),
        };
        let meta = match read_meta(frontmatter) {
            Ok(meta) => meta,
            Err(e) => return Err(e),
        };
        Ok(LyricPost { title: meta.title, parts: to_parts(content) })
    }
}

impl Lyric {
    /// Reads the lyric `id` from its document, as [`LyricPost::parse`] does.
    pub fn from_document<F: Fn(&str) -> Result<LyricMeta, Error>>(
        id: String,
        content: &str,
        read_meta: F,
    ) -> (r: Result<Lyric, Error>)
        requires
            forall|x: &str| #[trigger] read_meta.requires((x,)),
        ensures
            split_str(content@, delimiter()).len() != 3 ==> (r matches Err(Error::NotFound(m))
                && m@.len() == 0),
            split_str(content@, delimiter()).len() == 3 && (forall|
                x: &str,
                res: Result<LyricMeta, Error>,
            |
                x@ == split_str(content@, delimiter())[1] && #[trigger] read_meta.ensures(
                    (x,),
                    res,
                ) ==> res is Ok) ==> r is Ok,
            r matches Ok(lyric) ==> {
                &&& lyric.id == id
                &&& split_str(content@, delimiter()).len() == 3
                &&& lyric.parts.deep_view() == text_parts(split_str(content@, delimiter())[2])
                &&& exists|x: &str, meta: LyricMeta|
                    x@ == split_str(content@, delimiter())[1] && #[trigger] read_meta.ensures(
                        (x,),
                        Ok::<LyricMeta, Error>(meta),
                    ) && lyric.title == meta.title
            },
            split_str(content@, delimiter()).len() == 3 ==> (r matches Err(e) ==> exists|x: &str|
                x@ == split_str(content@, delimiter())[1] && #[trigger] read_meta.ensures(
                    (x,),
                    Err::<LyricMeta, Error>(e),
                )),
    {
        match LyricPost::parse(content, read_meta) {
            Ok(post) => Ok(Lyric { id, title: post.title, parts: post.parts }),
            Err(e) => Err(e),
        }
    }
}

impl Playlist {
    /// Reads the playlist `id` from its document: `read_post` gives its title
    /// and its members.
    pub fn from_document<F: Fn(&str) -> Result<(String, Vec<String>), Error>>(
        id: String,
        content: &str,
        read_post: F,
    ) -> (r: Result<Playlist, Error>)
        requires
            read_post.requires((content,)),
        ensures
            (forall|res: Result<(String, Vec<String>), Error>|
                #[trigger] read_post.ensures((content,), res) ==> res is Ok) ==> r is Ok,
            r matches Ok(p) ==> p.id == id && read_post.ensures(
                (content,),
                Ok::<(String, Vec<String>), Error>((p.title, p.members)),
            ),
            r matches Err(e) ==> read_post.ensures(
                (content,),
                Err::<(String, Vec<String>), Error>(e),
            ),
    {
        match read_post(content) {
            Ok((title, members)) => Ok(Playlist { id, title, members }),
            Err(e) => Err(e),
        }
    }
}

// ---------------------------------------------------------------------------
// Deleting a lyric from the playlists
// ---------------------------------------------------------------------------

/// The members other than `id`, in order.
pub open spec fn members_without(members: Seq<Seq<char>>, id: Seq<char>) -> Seq<Seq<char>>
    decreases members.len(),
{
    if members.len() == 0 {
        members
    } else {
        let rest = members_without(members.drop_last(), id);
        if members.last() == id {
            rest
        } else {
            rest.push(members.last())
        }
    }
}

/// The playlists that hold `id`, in order, each without `id`: those to store
/// again when the lyric `id` is deleted.
pub open spec fn playlists_dropping(ps: Seq<PlaylistView>, id: Seq<char>) -> Seq<PlaylistView>
    decreases ps.len(),
{
    if ps.len() == 0 {
        Seq::<PlaylistView>::empty()
    } else {
        let rest = playlists_dropping(ps.drop_last(), id);
        let p = ps.last();
        if p.members.contains(id) {
            rest.push(
                PlaylistView { id: p.id, title: p.title, members: members_without(p.members, id) },
            )
        } else {
            rest
        }
    }
}

/// The views of a list of playlists.
pub open spec fn playlist_views(ps: Seq<Playlist>) -> Seq<PlaylistView> {
    ps.map_values(|p: Playlist| p@)
}

/// Removes every occurrence of `id` from `members`, and tells whether there
/// was one.
fn remove_member(members: Vec<String>, id: &String) -> (r: (Vec<String>, bool))
    ensures
        r.0.deep_view() == members_without(members.deep_view(), id@),
        r.1 == members.deep_view().contains(id@),
{
    let ghost ms = members.deep_view();
    let mut kept: Vec<String> = Vec::new();
    let mut found = false;
    for m in it: members.into_iter()
        invariant
            it.seq().len() == ms.len(),
            forall|k: int| 0 <= k < ms.len() ==> #[trigger] ms[k] == it.seq()[k]@,
            kept.deep_view() == members_without(ms.take(it.index() as int), id@),
            found == ms.take(it.index() as int).contains(id@),
    {
        let ghost i = it.index() as int;
        proof {
            assert(ms.take(i + 1).drop_last() =~= ms.take(i));
            assert(ms.take(i + 1).last() == ms[i]);
            assert(ms[i] == m@);
        }
        let same = m == *id;
        if same {
            found = true;
            assert(ms.take(i + 1)[i] == id@);
        } else {
            let ghost old_kept = kept.deep_view();
            kept.push(m);
            assert(kept.deep_view() =~= old_kept.push(ms[i]));
            assert(ms.take(i + 1).contains(id@) == ms.take(i).contains(id@)) by {
                if ms.take(i + 1).contains(id@) {
                    let k = choose|k: int| 0 <= k < i + 1 && #[trigger] ms.take(i + 1)[k] == id@;
                    assert(k < i);
                    assert(ms.take(i)[k] == id@);
                }
                if ms.take(i).contains(id@) {
                    let k = choose|k: int| 0 <= k < i && #[trigger] ms.take(i)[k] == id@;
                    assert(ms.take(i + 1)[k] == id@);
                }
            }
        }
    }
    assert(ms.take(ms.len() as int) =~= ms);
    (kept, found)
}

/// The playlists that hold the lyric `id`, in order, each without `id`: what
/// deleting the lyric stores again.
pub fn playlists_without_lyric(playlists: Vec<Playlist>, id: &str) -> (r: Vec<Playlist>)
    ensures
        playlist_views(r@) == playlists_dropping(playlist_views(playlists@), id@),
{
    let ghost ps = playlist_views(playlists@);
    let target = id.to_owned();
    let mut r: Vec<Playlist> = Vec::new();
    for p in it: playlists.into_iter()
        invariant
            target@ == id@,
            it.seq().len() == ps.len(),
            forall|k: int| 0 <= k < ps.len() ==> #[trigger] ps[k] == it.seq()[k]@,
            playlist_views(r@) == playlists_dropping(ps.take(it.index() as int), id@),
    {
        let ghost i = it.index() as int;
        proof {
            assert(ps.take(i + 1).drop_last() =~= ps.take(i));
            assert(ps.take(i + 1).last() == ps[i]);
            assert(ps[i] == p@);
        }
        let Playlist { id: pid, title, members } = p;
        let (kept, found) = remove_member(members, &target);
        if found {
            let ghost old_r = playlist_views(r@);
            r.push(Playlist { id: pid, title, members: kept });
            assert(playlist_views(r@) =~= old_r.push(
                PlaylistView {
                    id: ps[i].id,
                    title: ps[i].title,
                    members: members_without(ps[i].members, id@),
                },
            ));
        }
    }
    assert(ps.take(ps.len() as int) =~= ps);
    r
}

/// An array whose items are all strings.
pub open spec fn all_strings(items: Option<Vec<Option<String>>>) -> bool {
    match items {
        Some(ms) => forall|k: int| 0 <= k < ms.len() ==> (#[trigger] ms@[k]) is Some,
        None => false,
    }
}

/// A playlist from the fields of its TOML document: the title must be a
/// string and the members an array of strings; otherwise [`Error::Parse`].
pub fn playlist_from_fields(
    id: String,
    title: Option<String>,
    members: Option<Vec<Option<String>>>,
) -> (r: Result<Playlist, Error>)
    ensures
        r is Ok <==> title is Some && all_strings(members),
        r matches Ok(p) ==> {
            &&& p.id == id
            &&& title == Some(p.title)
            &&& members matches Some(ms) && p.members.len() == ms.len() && forall|k: int|
                0 <= k < ms.len() ==> ms@[k] == Some(#[trigger] p.members@[k])
        },
        r matches Err(e) ==> e is Parse,
{
    let title = match title {
        Some(t) => t,
        None => return Err(Error::Parse),
    };
    let items = match members {
        Some(ms) => ms,
        None => return Err(Error::Parse),
    };
    let ghost ms = items@;
    let ghost given = members;
    let mut out: Vec<String> = Vec::new();
    for item in it: items.into_iter()
        invariant
            it.seq() == ms,
            given matches Some(v) && v@ == ms,
            given == members,
            out.len() == it.index(),
            forall|k: int| 0 <= k < it.index() ==> ms[k] == Some(#[trigger] out@[k]),
    {
        match item {
            Some(m) => out.push(m),
            None => {
                assert(ms[it.index() as int] is None);
                assert(!all_strings(given));
                return Err(Error::Parse);
            },
        }
    }
    assert(all_strings(members)) by {
        assert forall|k: int| 0 <= k < ms.len() implies (#[trigger] ms[k]) is Some by {
            assert(ms[k] == Some(out@[k]));
        }
    }
    Ok(Playlist { id, title, members: out })
}

proof fn lemma_push_contains(s: Seq<Seq<char>>, x: Seq<char>, m: Seq<char>)
    ensures
        s.push(x).contains(m) <==> s.contains(m) || x == m,
{
    if s.push(x).contains(m) {
        let k = choose|k: int| 0 <= k < s.len() + 1 && s.push(x)[k] == m;
        if k < s.len() {
            assert(s[k] == m);
        }
    }
    if s.contains(m) {
        let k = choose|k: int| 0 <= k < s.len() && s[k] == m;
        assert(s.push(x)[k] == m);
    }
    if x == m {
        assert(s.push(x)[s.len() as int] == m);
    }
}

/// Removing a member leaves no occurrence of it and keeps every other
/// member.
pub proof fn law_members_without(members: Seq<Seq<char>>, id: Seq<char>)
    ensures
        !members_without(members, id).contains(id),
        forall|m: Seq<char>|
            m != id ==> (members.contains(m) <==> #[trigger] members_without(members, id).contains(m)),
    decreases members.len(),
{
    if members.len() > 0 {
        let prev = members.drop_last();
        law_members_without(prev, id);
        let rest = members_without(prev, id);
        assert(members =~= prev.push(members.last()));
        assert forall|m: Seq<char>| m != id implies (members.contains(m)
            <==> #[trigger] members_without(members, id).contains(m)) by {
            assert(prev.contains(m) <==> rest.contains(m));
            lemma_push_contains(prev, members.last(), m);
            lemma_push_contains(rest, members.last(), m);
        }
        if members.last() != id {
            let w = rest.push(members.last());
            assert(!w.contains(id)) by {
                if w.contains(id) {
                    let k = choose|k: int| 0 <= k < w.len() && w[k] == id;
                    if k < rest.len() {
                        assert(rest[k] == id);
                    }
                }
            }
        }
    }
}

/// After a lyric is deleted, none of the playlists stored again holds it.
pub proof fn law_deleted_lyric_left_no_playlist(ps: Seq<PlaylistView>, id: Seq<char>)
    ensures
        forall|k: int|
            0 <= k < playlists_dropping(ps, id).len() ==> !(#[trigger] playlists_dropping(
                ps,
                id,
            )[k]).members.contains(id),
    decreases ps.len(),
{
    if ps.len() > 0 {
        law_deleted_lyric_left_no_playlist(ps.drop_last(), id);
        law_members_without(ps.last().members, id);
        let rest = playlists_dropping(ps.drop_last(), id);
        assert forall|k: int| 0 <= k < playlists_dropping(ps, id).len() implies !(
        #[trigger] playlists_dropping(ps, id)[k]).members.contains(id) by {
            if k < rest.len() {
                assert(playlists_dropping(ps, id)[k] == rest[k]);
            }
        }
    }
}

/// Removing a member keeps every other member, with its multiplicity and in
/// order: it is the filter of the members that differ from it.
pub proof fn law_members_without_is_filter(members: Seq<Seq<char>>, id: Seq<char>)
    ensures
        members_without(members, id) == members.filter(|m: Seq<char>| m != id),
    decreases members.len(),
{
    reveal(Seq::filter);
    if members.len() > 0 {
        law_members_without_is_filter(members.drop_last(), id);
    }
}

/// Deleting a lyric stores again exactly the playlists that hold it, in
/// order, each with its id and title and with every other member kept, with
/// its multiplicity and in order.
pub proof fn law_playlists_dropping_is_filter(ps: Seq<PlaylistView>, id: Seq<char>)
    ensures
        playlists_dropping(ps, id) == ps.filter(|p: PlaylistView| p.members.contains(id)).map_values(
            |p: PlaylistView|
                PlaylistView {
                    id: p.id,
                    title: p.title,
                    members: p.members.filter(|m: Seq<char>| m != id),
                },
        ),
    decreases ps.len(),
{
    reveal(Seq::filter);
    let f = |p: PlaylistView|
        PlaylistView { id: p.id, title: p.title, members: p.members.filter(|m: Seq<char>| m != id) };
    let pred = |p: PlaylistView| p.members.contains(id);
    if ps.len() > 0 {
        law_playlists_dropping_is_filter(ps.drop_last(), id);
        law_members_without_is_filter(ps.last().members, id);
        let prev = ps.drop_last().filter(pred);
        if pred(ps.last()) {
            assert(ps.filter(pred) == prev.push(ps.last()));
            assert(prev.push(ps.last()).map_values(f) =~= prev.map_values(f).push(f(ps.last())));
        } else {
            assert(ps.filter(pred) == prev);
        }
    } else {
        assert(ps.filter(pred) =~= Seq::<PlaylistView>::empty());
        assert(ps.filter(pred).map_values(f) =~= Seq::<PlaylistView>::empty());
    }
}

} // verus!
