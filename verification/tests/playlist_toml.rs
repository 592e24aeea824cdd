use lipl_storage::error::Error;
use lipl_storage::playlist_toml::{from_playlist_to_toml, from_toml_to_playlist};
use lipl_storage::store::Playlist;

#[test]
fn reading_a_playlist_document() {
    let p = from_toml_to_playlist("title = \"Mix\"\nmembers = [\"a\", \"b\"]\n", "p1".to_string())
        .unwrap();
    assert_eq!(p.id, "p1");
    assert_eq!(p.title, "Mix");
    assert_eq!(p.members, vec!["a", "b"]);
    let empty = from_toml_to_playlist("members = []\ntitle = \"\"\nother = 1", "e".to_string())
        .unwrap();
    assert!(empty.members.is_empty());
    assert_eq!(empty.title, "");
}

#[test]
fn playlist_document_errors() {
    assert!(matches!(
        from_toml_to_playlist("title = ", "x".to_string()),
        Err(Error::Toml(m)) if !m.is_empty()
    ));
    assert!(matches!(
        from_toml_to_playlist("members = [\"a\"]", "x".to_string()),
        Err(Error::Parse)
    ));
    assert!(matches!(
        from_toml_to_playlist("title = 3\nmembers = []", "x".to_string()),
        Err(Error::Parse)
    ));
    assert!(matches!(
        from_toml_to_playlist("title = \"t\"\nmembers = \"a\"", "x".to_string()),
        Err(Error::Parse)
    ));
    assert!(matches!(
        from_toml_to_playlist("title = \"t\"\nmembers = [\"a\", 1]", "x".to_string()),
        Err(Error::Parse)
    ));
    assert!(matches!(
        from_toml_to_playlist("title = \"t\"\nmembers = [[\"a\"]]", "x".to_string()),
        Err(Error::Parse)
    ));
}

#[test]
fn writing_a_playlist_document() {
    let p = Playlist {
        id: "p9".to_string(),
        title: "Kinderliedjes".to_string(),
        members: vec!["a".to_string(), "b\"c".to_string()],
    };
    let text = from_playlist_to_toml(&p).unwrap();
    assert!(!text.contains("p9"));
    assert!(text.contains("title = \"Kinderliedjes\""));
    let back = from_toml_to_playlist(&text, "p9".to_string()).unwrap();
    assert_eq!(back.id, "p9");
    assert_eq!(back.title, p.title);
    assert_eq!(back.members, p.members);
}

#[test]
fn toml_error_message_is_the_parsers() {
    let text = "title = ";
    let expected = toml::from_str::<toml::Table>(text).unwrap_err().to_string();
    match from_toml_to_playlist(text, "x".to_string()) {
        Err(Error::Toml(m)) => assert_eq!(m, expected),
        other => panic!("unexpected {:?}", other),
    }
}

#[test]
fn writing_always_succeeds() {
    let p = Playlist { id: String::new(), title: String::new(), members: vec![] };
    let text = from_playlist_to_toml(&p).unwrap();
    let back = from_toml_to_playlist(&text, "i".to_string()).unwrap();
    assert_eq!(back.title, "");
    assert!(back.members.is_empty());
}
