use toml::ser::Error as TomlSerError;
use vstd::prelude::*;

use crate::error::Error;
use crate::store::{all_strings, playlist_from_fields, Playlist, PlaylistView};

verus! {

// ---------------------------------------------------------------------------
// TOML values as the playlist logic reads them
// ---------------------------------------------------------------------------

/// An item of a TOML array: a string, or anything else.
pub enum TomlItem {
    String(String),
    Other,
}

/// A TOML value: a string, an array, or anything else.
pub enum TomlValue {
    String(String),
    Array(Vec<TomlItem>),
    Other,
}

/// An array item as plain values.
pub enum TomlItemView {
    String(Seq<char>),
    Other,
}

/// A TOML value as plain values.
pub enum TomlValueView {
    String(Seq<char>),
    Array(Seq<TomlItemView>),
    Other,
}

impl View for TomlItem {
    type V = TomlItemView;

    open spec fn view(&self) -> TomlItemView {
        match self {
            TomlItem::String(s) => TomlItemView::String(s@),
            TomlItem::Other => TomlItemView::Other,
        }
    }
}

impl View for TomlValue {
    type V = TomlValueView;

    open spec fn view(&self) -> TomlValueView {
        match self {
            TomlValue::String(s) => TomlValueView::String(s@),
            TomlValue::Array(items) => TomlValueView::Array(
                items@.map_values(|i: TomlItem| i@),
            ),
            TomlValue::Other => TomlValueView::Other,
        }
    }
}

/// The table that a list of entries makes; a later entry of a key wins.
pub open spec fn table_view(entries: Seq<(String, TomlValue)>) -> Map<Seq<char>, TomlValueView>
    decreases entries.len(),
{
    if entries.len() == 0 {
        Map::empty()
    } else {
        table_view(entries.drop_last()).insert(entries.last().0@, entries.last().1@)
    }
}

/// The top-level table of the TOML document `text`, as `toml::from_str`
/// reads it into a `toml::Table`; `None` when `text` is not a TOML document.
pub uninterp spec fn toml_table_of(text: Seq<char>) -> Option<Map<Seq<char>, TomlValueView>>;

/// The text (`Display`) of the `toml::de::Error` that
/// `toml::from_str::<toml::Table>` gives for `text`.
pub uninterp spec fn toml_error_text(text: Seq<char>) -> Seq<char>;

/// `toml::from_str::<toml::Table>(text)`, each value taken as a string, an
/// array (of strings and other items) or something else; an error as its
/// text.
#[verifier::external_body]
fn parse_toml_table(text: &str) -> (r: Result<Vec<(String, TomlValue)>, String>)
    ensures
        r is Ok <==> toml_table_of(text@) is Some,
        r matches Ok(t) ==> toml_table_of(text@) == Some(table_view(t@)),
        r matches Err(m) ==> m@ == toml_error_text(text@),
{
    toml::from_str::<toml::Table>(text).map_err(|e| e.to_string()).map(|t| t.into_iter().map(|(k, v)| (k, match v {
        toml::Value::String(s) => TomlValue::String(s),
        toml::Value::Array(a) => TomlValue::Array(a.into_iter().map(|i| match i {
            toml::Value::String(s) => TomlItem::String(s),
            _ => TomlItem::Other,
        }).collect()),
        _ => TomlValue::Other,
    })).collect())
}

// ---------------------------------------------------------------------------
// Reading a playlist
// ---------------------------------------------------------------------------

/// The key of a playlist's title.
pub open spec fn title_key() -> Seq<char> {
    seq!['t', 'i', 't', 'l', 'e']
}

/// The key of a playlist's members.
pub open spec fn members_key() -> Seq<char> {
    seq!['m', 'e', 'm', 'b', 'e', 'r', 's']
}

/// The value of `key` in `table`, if any.
pub open spec fn field(table: Map<Seq<char>, TomlValueView>, key: Seq<char>) -> Option<
    TomlValueView,
> {
    if table.dom().contains(key) {
        Some(table[key])
    } else {
        None
    }
}

/// The text of a string value.
pub open spec fn string_field(v: Option<TomlValueView>) -> Option<Seq<char>> {
    match v {
        Some(TomlValueView::String(s)) => Some(s),
        _ => None,
    }
}

/// The text of an array item that is a string.
pub open spec fn item_string(i: TomlItemView) -> Option<Seq<char>> {
    match i {
        TomlItemView::String(s) => Some(s),
        TomlItemView::Other => None,
    }
}

/// The items of an array value, each with its text if it is a string.
pub open spec fn array_field(v: Option<TomlValueView>) -> Option<Seq<Option<Seq<char>>>> {
    match v {
        Some(TomlValueView::Array(items)) => Some(items.map_values(|i: TomlItemView| item_string(i))),
        _ => None,
    }
}

/// The table holds a playlist: a string title and an array of strings as
/// members.
pub open spec fn holds_playlist(table: Map<Seq<char>, TomlValueView>) -> bool {
    &&& string_field(field(table, title_key())) is Some
    &&& array_field(field(table, members_key())) matches Some(items)
    &&& forall|k: int| 0 <= k < items.len() ==> (#[trigger] items[k]) is Some
}

/// The view of a read title.
pub open spec fn text_view(t: Option<String>) -> Option<Seq<char>> {
    match t {
        Some(s) => Some(s@),
        None => None,
    }
}

/// The view of read array items.
pub open spec fn items_view(items: Option<Vec<Option<String>>>) -> Option<Seq<Option<Seq<char>>>> {
    match items {
        Some(v) => Some(v@.map_values(|i: Option<String>| text_view(i))),
        None => None,
    }
}

/// The text of a string value.
fn string_value(v: TomlValue) -> (r: Option<String>)
    ensures
        text_view(r) == string_field(Some(v@)),
{
    match v {
        TomlValue::String(s) => Some(s),
        _ => None,
    }
}

/// The items of an array value, each with its text if it is a string.
fn array_value(v: TomlValue) -> (r: Option<Vec<Option<String>>>)
    ensures
        items_view(r) == array_field(Some(v@)),
{
    match v {
        TomlValue::Array(items) => {
            let ghost iv = items@;
            let mut out: Vec<Option<String>> = Vec::new();
            for item in it: items.into_iter()
                invariant
                    it.seq() == iv,
                    out@.map_values(|i: Option<String>| text_view(i)) =~= iv.take(
                        it.index() as int,
                    ).map_values(|i: TomlItem| item_string(i@)),
            {
                let ghost k = it.index() as int;
                let ghost before = out@;
                let t = match item {
                    TomlItem::String(s) => Some(s),
                    TomlItem::Other => None,
                };
                out.push(t);
                assert(iv.take(k + 1).map_values(|i: TomlItem| item_string(i@)) =~= iv.take(
                    k,
                ).map_values(|i: TomlItem| item_string(i@)).push(item_string(iv[k]@)));
                assert(out@.map_values(|i: Option<String>| text_view(i)) =~= before.map_values(
                    |i: Option<String>| text_view(i),
                ).push(text_view(t)));
            }
            assert(iv.take(iv.len() as int) =~= iv);
            assert(iv.map_values(|i: TomlItem| item_string(i@)) =~= iv.map_values(
                |i: TomlItem| i@,
            ).map_values(|i: TomlItemView| item_string(i)));
            Some(out)
        },
        _ => None,
    }
}

proof fn lemma_table_view_step(es: Seq<(String, TomlValue)>, i: int, key: Seq<char>)
    requires
        0 <= i < es.len(),
    ensures
        field(table_view(es.take(i + 1)), key) == if es[i].0@ == key {
            Some(es[i].1@)
        } else {
            field(table_view(es.take(i)), key)
        },
{
    assert(es.take(i + 1).drop_last() =~= es.take(i));
    assert(es.take(i + 1).last() == es[i]);
}

proof fn lemma_all_strings(items: Option<Vec<Option<String>>>)
    requires
        items is Some,
    ensures
        all_strings(items) <==> (items_view(items) matches Some(v) && forall|k: int|
            0 <= k < v.len() ==> (#[trigger] v[k]) is Some),
{
    let ms = items->Some_0;
    let v = ms@.map_values(|i: Option<String>| text_view(i));
    assert forall|k: int| 0 <= k < v.len() implies ((#[trigger] v[k]) is Some <==> ms@[k] is Some) by {
        assert(v[k] == text_view(ms@[k]));
    }
    if all_strings(items) {
        assert forall|k: int| 0 <= k < v.len() implies (#[trigger] v[k]) is Some by {
            assert(ms@[k] is Some);
        }
    }
    if forall|k: int| 0 <= k < v.len() ==> (#[trigger] v[k]) is Some {
        assert forall|k: int| 0 <= k < ms.len() implies (#[trigger] ms@[k]) is Some by {
            assert(v[k] is Some);
        }
    }
}

/// Reads a playlist from a TOML document with a string `title` and an
/// array of strings `members`: a text that is not TOML gives
/// [`Error::Toml`]; a document without those fields gives
/// [`Error::Parse`].
pub fn from_toml_to_playlist(s: &str, id: String) -> (r: Result<Playlist, Error>)
    ensures
        toml_table_of(s@) is None ==> (r matches Err(Error::Toml(m)) && m@ == toml_error_text(s@)),
        toml_table_of(s@) matches Some(t) ==> (r is Ok <==> holds_playlist(t)),
        toml_table_of(s@) is Some ==> (r matches Err(e) ==> e is Parse),
        r matches Ok(p) ==> {
            &&& p.id == id
            &&& toml_table_of(s@) matches Some(t)
            &&& string_field(field(t, title_key())) == Some(p.title@)
            &&& array_field(field(t, members_key())) == Some(
                p.members.deep_view().map_values(|m: Seq<char>| Some(m)),
            )
        },
{
    let entries = match parse_toml_table(s) {
        Ok(t) => t,
        Err(m) => return Err(Error::Toml(m)),
    };
    let ghost es = entries@;
    proof {
        reveal_strlit("title");
        reveal_strlit("members");
    }
    let title_name = "title".to_owned();
    let members_name = "members".to_owned();
    assert(title_name@ =~= title_key());
    assert(members_name@ =~= members_key());
    let mut title: Option<String> = None;
    let mut members: Option<Vec<Option<String>>> = None;
    proof {
        assert(es.take(0) =~= Seq::<(String, TomlValue)>::empty());
    }
    for entry in it: entries.into_iter()
        invariant
            it.seq() == es,
            title_name@ == title_key(),
            members_name@ == members_key(),
            text_view(title) == string_field(field(table_view(es.take(it.index() as int)), title_key())),
            items_view(members) == array_field(
                field(table_view(es.take(it.index() as int)), members_key()),
            ),
    {
        let ghost i = it.index() as int;
        proof {
            lemma_table_view_step(es, i, title_key());
            lemma_table_view_step(es, i, members_key());
        }
        let (key, value) = entry;
        if key == title_name {
            title = string_value(value);
        } else if key == members_name {
            members = array_value(value);
        }
    }
    assert(es.take(es.len() as int) =~= es);
    let ghost t = table_view(es);
    let ghost has_title = title is Some;
    let ghost has_members = members is Some;
    proof {
        if members is Some {
            lemma_all_strings(members);
        }
    }
    let r = playlist_from_fields(id, title, members);
    proof {
        if r is Ok {
            let p = r->Ok_0;
            let ms = members->Some_0;
            assert(ms@.map_values(|i: Option<String>| text_view(i)) =~= p.members.deep_view().map_values(
                |m: Seq<char>| Some(m),
            )) by {
                assert forall|k: int| 0 <= k < ms.len() implies ms@[k] == Some(#[trigger] p.members@[k]) by {
                }
            }
        }
    }
    r
}

// ---------------------------------------------------------------------------
// Writing a playlist
// ---------------------------------------------------------------------------

/// A value to write in a TOML table: a string or an array of strings.
pub enum TomlText {
    String(String),
    StringArray(Vec<String>),
}

/// A value to write, as plain values.
pub enum TomlTextView {
    String(Seq<char>),
    StringArray(Seq<Seq<char>>),
}

impl View for TomlText {
    type V = TomlTextView;

    open spec fn view(&self) -> TomlTextView {
        match self {
            TomlText::String(s) => TomlTextView::String(s@),
            TomlText::StringArray(a) => TomlTextView::StringArray(a.deep_view()),
        }
    }
}

/// The entries as plain values.
pub open spec fn entries_view(entries: Seq<(String, TomlText)>) -> Seq<(Seq<char>, TomlTextView)> {
    entries.map_values(|e: (String, TomlText)| (e.0@, e.1@))
}

/// What `toml::to_string` writes for the `toml::Table` of these entries;
/// `None` when it fails.
pub uninterp spec fn toml_document_text_of(entries: Seq<(Seq<char>, TomlTextView)>) -> Option<
    Seq<char>,
>;

/// `toml::to_string` of the `toml::Table` made of `entries`, a string as a
/// TOML string and an array of strings as a TOML array of strings. Writing
/// fails only for a failing `Serialize`, non-string keys or unsupported
/// types, none of which a table of strings and arrays of strings has, so it
/// succeeds.
#[verifier::external_body]
fn write_toml_table(entries: Vec<(String, TomlText)>) -> (r: Result<String, TomlSerError>)
    ensures
        r is Ok,
        r matches Ok(t) ==> toml_document_text_of(entries_view(entries@)) == Some(t@),
{
    let table: toml::Table = entries.into_iter().map(|(k, v)| (k, match v {
        TomlText::String(s) => toml::Value::String(s),
        TomlText::StringArray(a) => toml::Value::Array(a.into_iter().map(toml::Value::String).collect()),
    })).collect();
    toml::to_string(&table)
}

/// The entries a playlist is written with: its title and its members; its
/// id is the name of its file, not part of the document.
pub open spec fn playlist_entries(p: PlaylistView) -> Seq<(Seq<char>, TomlTextView)> {
    seq![
        (title_key(), TomlTextView::String(p.title)),
        (members_key(), TomlTextView::StringArray(p.members)),
    ]
}

/// A copy of the texts.
fn copy_strings(v: &Vec<String>) -> (r: Vec<String>)
    ensures
        r.deep_view() == v.deep_view(),
{
    let mut r: Vec<String> = Vec::new();
    let mut i: usize = 0;
    while i < v.len()
        invariant
            i <= v.len(),
            r.deep_view() =~= v.deep_view().take(i as int),
        decreases v.len() - i,
    {
        let ghost before = r.deep_view();
        r.push(v[i].clone());
        assert(r.deep_view() =~= before.push(v@[i as int]@));
        i = i + 1;
    }
    assert(v.deep_view().take(v.len() as int) =~= v.deep_view());
    r
}

/// Writes a playlist as a TOML table of its title and members; this always
/// succeeds.
pub fn from_playlist_to_toml(playlist: &Playlist) -> (r: Result<String, Error>)
    ensures
        r is Ok,
        toml_document_text_of(playlist_entries(playlist@)) is Some,
        r matches Ok(t) ==> toml_document_text_of(playlist_entries(playlist@)) == Some(t@),
{
    proof {
        reveal_strlit("title");
        reveal_strlit("members");
    }
    let title_name = "title".to_owned();
    let members_name = "members".to_owned();
    assert(title_name@ =~= title_key());
    assert(members_name@ =~= members_key());
    let mut entries: Vec<(String, TomlText)> = Vec::new();
    entries.push((title_name, TomlText::String(playlist.title.clone())));
    entries.push((members_name, TomlText::StringArray(copy_strings(&playlist.members))));
    assert(entries_view(entries@)[0] == playlist_entries(playlist@)[0]);
    assert(entries_view(entries@)[1] == playlist_entries(playlist@)[1]);
    assert(entries_view(entries@) =~= playlist_entries(playlist@));
    match write_toml_table(entries) {
        Ok(t) => Ok(t),
        Err(_) => Err(Error::Parse),
    }
}

/// The value that a written value stands for when the document is read: a
/// string, or an array whose items are all strings.
pub open spec fn text_value(v: TomlTextView) -> TomlValueView {
    match v {
        TomlTextView::String(s) => TomlValueView::String(s),
        TomlTextView::StringArray(ms) => TomlValueView::Array(
            ms.map_values(|m: Seq<char>| TomlItemView::String(m)),
        ),
    }
}

/// The table that written entries stand for; a later entry of a key wins.
pub open spec fn text_table(entries: Seq<(Seq<char>, TomlTextView)>) -> Map<
    Seq<char>,
    TomlValueView,
>
    decreases entries.len(),
{
    if entries.len() == 0 {
        Map::empty()
    } else {
        text_table(entries.drop_last()).insert(entries.last().0, text_value(entries.last().1))
    }
}

/// What a playlist is written as is what reading takes a playlist from, and
/// reading it gives the playlist's own title and members back, each member
/// id unchanged and in its place: the table of the written entries holds a
/// playlist, its title is the playlist's title, its members are the
/// playlist's members, and any title and members read from it are those.
pub proof fn law_playlist_written_reads_back(
    p: PlaylistView,
    title: Seq<char>,
    members: Seq<Seq<char>>,
)
    ensures
        holds_playlist(text_table(playlist_entries(p))),
        string_field(field(text_table(playlist_entries(p)), title_key())) == Some(p.title),
        array_field(field(text_table(playlist_entries(p)), members_key())) == Some(
            p.members.map_values(|m: Seq<char>| Some(m)),
        ),
        string_field(field(text_table(playlist_entries(p)), title_key())) == Some(title)
            ==> title == p.title,
        array_field(field(text_table(playlist_entries(p)), members_key())) == Some(
            members.map_values(|m: Seq<char>| Some(m)),
        ) ==> members == p.members,
{
    let es = playlist_entries(p);
    let t = text_table(es);
    assert(es.drop_last().drop_last() =~= Seq::<(Seq<char>, TomlTextView)>::empty());
    assert(es.drop_last().last() == es[0]);
    reveal_with_fuel(text_table, 3);
    assert(title_key() != members_key()) by {
        assert(title_key().len() != members_key().len());
    }
    assert(t.dom().contains(title_key()));
    assert(t[title_key()] == TomlValueView::String(p.title));
    assert(t[members_key()] == text_value(TomlTextView::StringArray(p.members)));
    let items = p.members.map_values(|m: Seq<char>| TomlItemView::String(m));
    assert(items.map_values(|i: TomlItemView| item_string(i)) =~= p.members.map_values(
        |m: Seq<char>| Some(m),
    ));
    let read = items.map_values(|i: TomlItemView| item_string(i));
    assert forall|k: int| 0 <= k < read.len() implies (#[trigger] read[k]) is Some by {
        assert(read[k] == Some(p.members[k]));
    }
    if array_field(field(t, members_key())) == Some(members.map_values(|m: Seq<char>| Some(m))) {
        assert(members.len() == p.members.len());
        assert forall|k: int| 0 <= k < members.len() implies #[trigger] members[k] == p.members[k] by {
            assert(members.map_values(|m: Seq<char>| Some(m))[k] == Some(members[k]));
            assert(read[k] == Some(p.members[k]));
        }
        assert(members =~= p.members);
    }
}

} // verus!
