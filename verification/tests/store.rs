use lipl_storage::error::{ErrInto, Error};
use lipl_storage::part::{extract_delimited_frontmatter, to_parts, to_text};
use lipl_storage::store::{
    lyric_document, lyric_file_name, playlist_file_name, playlist_from_fields,
    playlists_without_lyric, text_from_bytes, Lyric, LyricMeta, LyricPost, Playlist,
};

fn strings(lines: &[&str]) -> Vec<String> {
    lines.iter().map(|l| l.to_string()).collect()
}

fn playlist(id: &str, members: &[&str]) -> Playlist {
    Playlist { id: id.to_string(), title: format!("title {id}"), members: strings(members) }
}

#[test]
fn file_names_carry_the_extension() {
    assert_eq!(lyric_file_name("abc"), "abc.md");
    assert_eq!(playlist_file_name("abc"), "abc.toml");
    assert_eq!(lyric_file_name(""), ".md");
}

#[test]
fn text_from_bytes_decodes_utf8() {
    assert_eq!(text_from_bytes("één".as_bytes().to_vec()).unwrap(), "één");
    assert_eq!(text_from_bytes(Vec::new()).unwrap(), "");
    match text_from_bytes(vec![0x66, 0xff, 0x66]) {
        Err(Error::Utf8(m)) => assert!(!m.is_empty()),
        other => panic!("unexpected {:?}", other),
    }
}

#[test]
fn toml_errors_become_store_errors() {
    let r: Result<toml::Table, toml::de::Error> = toml::from_str("= = =");
    match r.err_into() {
        Err(Error::Toml(m)) => assert!(!m.is_empty()),
        other => panic!("unexpected {:?}", other),
    }
    let ok: Result<toml::Table, toml::de::Error> = toml::from_str("a = 1");
    assert_eq!(ok.err_into().unwrap().len(), 1);
}

#[test]
fn lyric_meta_hash_is_a_strong_entity_tag() {
    let lyric = Lyric { id: "1".to_string(), title: "Title".to_string(), parts: vec![] };
    let meta = LyricMeta::from_lyric(lyric, "title = \"Title\"\n");
    assert_eq!(meta.title, "Title");
    let hash = meta.hash.unwrap();
    assert!(hash.starts_with("\"16-"), "{hash}");
    assert!(hash.ends_with('"'));
    assert!(hash[4..hash.len() - 1].chars().all(|c| c.is_ascii_digit()));
    let again = LyricMeta::from_lyric(
        Lyric { id: "2".to_string(), title: "Other".to_string(), parts: vec![] },
        "title = \"Title\"\n",
    );
    assert_eq!(again.hash.unwrap(), hash);
    let empty = LyricMeta::from_lyric(
        Lyric { id: "3".to_string(), title: String::new(), parts: vec![] },
        "",
    );
    assert!(empty.hash.unwrap().starts_with("\"0-"));
}

#[test]
fn lyric_document_layout() {
    let parts = vec![strings(&["a", "b"]), strings(&["c"])];
    assert_eq!(lyric_document("title = \"T\"\n", &parts), "+++\ntitle = \"T\"\n+++\n\na\nb\n\nc");
}

#[test]
fn lyric_document_reads_back() {
    let parts = vec![strings(&["Er is er één jarig", "hoera"]), strings(&["zij"])];
    let meta = "title = \"Jarig\"\nhash = \"x\"\n";
    let doc = lyric_document(meta, &parts);
    let (front, body) = extract_delimited_frontmatter(&doc).unwrap();
    assert_eq!(front, meta);
    assert_eq!(to_parts(body), parts);
    assert_eq!(to_text(&to_parts(body)), to_text(&parts));
}

fn read_title(s: &str) -> Result<LyricMeta, Error> {
    match s.strip_prefix("title: ") {
        Some(t) => Ok(LyricMeta { title: t.trim_end().to_string(), hash: None }),
        None => Err(Error::Parse),
    }
}

#[test]
fn lyric_post_parse() {
    let post = LyricPost::parse("+++\ntitle: T\n+++\n\nl1\nl2\n\nl3\n", read_title).unwrap();
    assert_eq!(post.title, "T");
    assert_eq!(post.parts, vec![strings(&["l1", "l2"]), strings(&["l3"])]);
    assert!(matches!(LyricPost::parse("+++\nnope\n+++\nx", read_title), Err(Error::Parse)));
    assert!(matches!(LyricPost::parse("no front matter", read_title), Err(Error::NotFound(_))));
}

#[test]
fn lyric_from_document_keeps_the_id() {
    let lyric = Lyric::from_document("abc".to_string(), "+++\ntitle: T\n+++\nx", read_title).unwrap();
    assert_eq!(lyric.id, "abc");
    assert_eq!(lyric.title, "T");
    assert_eq!(lyric.parts, vec![strings(&["x"])]);
}

#[test]
fn playlist_from_document_keeps_the_id() {
    let p = Playlist::from_document("p".to_string(), "ignored", |_s: &str| {
        Ok((String::from("Mix"), strings(&["a", "b"])))
    })
    .unwrap();
    assert_eq!(p.id, "p");
    assert_eq!(p.title, "Mix");
    assert_eq!(p.members, strings(&["a", "b"]));
    let e = Playlist::from_document("p".to_string(), "x", |_s: &str| Err(Error::Parse));
    assert!(matches!(e, Err(Error::Parse)));
}

#[test]
fn deleting_a_lyric_updates_the_playlists_that_hold_it() {
    let ps = vec![
        playlist("p1", &["a", "b", "a"]),
        playlist("p2", &["c"]),
        playlist("p3", &["a"]),
    ];
    let changed = playlists_without_lyric(ps, "a");
    assert_eq!(changed.len(), 2);
    assert_eq!(changed[0].id, "p1");
    assert_eq!(changed[0].title, "title p1");
    assert_eq!(changed[0].members, strings(&["b"]));
    assert_eq!(changed[1].id, "p3");
    assert!(changed[1].members.is_empty());
    assert!(playlists_without_lyric(vec![playlist("p", &["x"])], "y").is_empty());
}

#[test]
fn playlist_fields() {
    let p = playlist_from_fields(
        "id".to_string(),
        Some("T".to_string()),
        Some(vec![Some("a".to_string()), Some("b".to_string())]),
    )
    .unwrap();
    assert_eq!(p.id, "id");
    assert_eq!(p.title, "T");
    assert_eq!(p.members, strings(&["a", "b"]));
    assert!(matches!(
        playlist_from_fields("id".to_string(), None, Some(vec![])),
        Err(Error::Parse)
    ));
    assert!(matches!(
        playlist_from_fields("id".to_string(), Some("T".to_string()), None),
        Err(Error::Parse)
    ));
    assert!(matches!(
        playlist_from_fields(
            "id".to_string(),
            Some("T".to_string()),
            Some(vec![Some("a".to_string()), None])
        ),
        Err(Error::Parse)
    ));
}

#[test]
fn utf8_error_message_is_stds() {
    let bytes = vec![0x61, 0xe2, 0x28, 0xa1];
    let expected = String::from_utf8(bytes.clone()).unwrap_err().to_string();
    match text_from_bytes(bytes) {
        Err(Error::Utf8(m)) => assert_eq!(m, expected),
        other => panic!("unexpected {:?}", other),
    }
}

#[test]
fn to_text_of_concatenated_parts() {
    let a = vec![strings(&["a", "b"])];
    let b = vec![strings(&["c"]), strings(&["d", "e"])];
    let ab: Vec<Vec<String>> = a.iter().chain(b.iter()).cloned().collect();
    assert_eq!(to_text(&ab), format!("{}\n\n{}", to_text(&a), to_text(&b)));
    assert_eq!(to_text(&[strings(&["x", "y"])]), "x\ny");
}
