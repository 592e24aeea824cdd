use lipl_storage::routes::{ErrorCode, Method, RoutePath, Routes, StoreCall};

#[test]
fn test_routes() {
    assert_eq!(
        Routes::try_from(RoutePath {
            method: Method::Get,
            path: "api/v1/lyric".to_string(),
            body: None,
        })
        .unwrap(),
        Routes::GetLyrics
    );
    assert_eq!(
        Routes::try_from(RoutePath {
            method: Method::Get,
            path: "api/v1/lyric/".to_string(),
            body: None,
        })
        .unwrap(),
        Routes::GetLyrics
    );
    assert_eq!(
        Routes::try_from(RoutePath {
            method: Method::Get,
            path: "api/v1/lyric/1".to_string(),
            body: None,
        })
        .unwrap(),
        Routes::GetLyric("1".to_string())
    );
    assert_eq!(
        Routes::try_from(RoutePath {
            method: Method::Post,
            path: "api/v1/lyric".to_string(),
            body: Some("lyric body".to_string()),
        })
        .unwrap(),
        Routes::PostLyric("lyric body".to_string())
    );
    assert_eq!(
        Routes::try_from(RoutePath {
            method: Method::Put,
            path: "api/v1/lyric/1".to_string(),
            body: Some("lyric body".to_string()),
        })
        .unwrap(),
        Routes::PutLyric("1".to_string(), "lyric body".to_string())
    );
    assert_eq!(
        Routes::try_from(RoutePath {
            method: Method::Delete,
            path: "api/v1/lyrics/1".to_string(),
            body: None,
        })
        .unwrap(),
        Routes::DeleteLyric("1".to_string())
    );
}

fn route(method: Method, path: &str, body: Option<&str>) -> Result<Routes, ErrorCode> {
    Routes::try_from(RoutePath {
        method,
        path: path.to_string(),
        body: body.map(|b| b.to_string()),
    })
}

#[test]
fn routes_need_the_api_prefix() {
    assert_eq!(route(Method::Get, "lyric/1", None), Err(ErrorCode::DestinationNotFound));
    assert_eq!(route(Method::Get, "api/v2/lyric", None), Err(ErrorCode::DestinationNotFound));
    assert_eq!(route(Method::Get, "api/v1/song", None), Err(ErrorCode::DestinationNotFound));
    assert_eq!(route(Method::Get, "", None), Err(ErrorCode::DestinationNotFound));
}

#[test]
fn lyric_routes() {
    assert_eq!(route(Method::Post, "api/v1/lyric/", None), Ok(Routes::PostLyric(String::new())));
    assert_eq!(route(Method::Delete, "api/v1/lyric", None), Err(ErrorCode::DestinationNotFound));
    assert_eq!(route(Method::Patch, "api/v1/lyric/7", None), Err(ErrorCode::DestinationNotFound));
    assert_eq!(
        route(Method::Get, "api/v1/lyric/7/extra", None),
        Ok(Routes::GetLyric("7".to_string()))
    );
    assert_eq!(
        route(Method::Put, "api/v1/lyric/7", None),
        Ok(Routes::PutLyric("7".to_string(), String::new()))
    );
    assert_eq!(route(Method::Get, "api/v1/lyric//7", None), Ok(Routes::GetLyrics));
}

#[test]
fn playlist_routes() {
    assert_eq!(route(Method::Get, "api/v1/playlist", None), Ok(Routes::GetPlaylists));
    assert_eq!(route(Method::Delete, "api/v1/playlist", None), Ok(Routes::GetPlaylists));
    assert_eq!(route(Method::Get, "api/v1/playlist/", None), Ok(Routes::GetPlaylists));
    assert_eq!(
        route(Method::Post, "api/v1/playlist/", Some("{}")),
        Ok(Routes::PostPlaylist("{}".to_string()))
    );
    assert_eq!(route(Method::Put, "api/v1/playlist/", None), Err(ErrorCode::DestinationNotFound));
    assert_eq!(
        route(Method::Get, "api/v1/playlist/p1", None),
        Ok(Routes::GetPlaylist("p1".to_string()))
    );
    assert_eq!(
        route(Method::Put, "api/v1/playlists/p1", Some("b")),
        Ok(Routes::PutPlaylist("p1".to_string(), "b".to_string()))
    );
    assert_eq!(
        route(Method::Delete, "api/v1/playlist/p1", None),
        Ok(Routes::DeletePlaylist("p1".to_string()))
    );
    assert_eq!(
        route(Method::Other("LINK".to_string()), "api/v1/playlist/p1", None),
        Err(ErrorCode::DestinationNotFound)
    );
}

#[test]
fn routes_to_store_calls() {
    assert_eq!(Routes::GetLyrics.into_store_call(), StoreCall::GetLyrics);
    assert_eq!(
        Routes::PutLyric("1".to_string(), "{}".to_string()).into_store_call(),
        StoreCall::UpsertLyric("{}".to_string())
    );
    assert_eq!(
        Routes::PostPlaylist("b".to_string()).into_store_call(),
        StoreCall::UpsertPlaylist("b".to_string())
    );
    assert_eq!(
        Routes::DeletePlaylist("p".to_string()).into_store_call(),
        StoreCall::DeletePlaylist("p".to_string())
    );
    assert_eq!(
        Routes::GetLyric("x".to_string()).into_store_call(),
        StoreCall::GetLyric("x".to_string())
    );
}
