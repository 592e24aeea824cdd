use lipl_storage::logging::{level_to_str, log_line, timestamp_text, Level};
use lipl_storage::run::{
    corrected_lyric, lyrics_failed_message, lyrics_found_message, record_summary,
    title_updated_message,
};
use lipl_storage::routes::{answer, ErrorCode, Method, RoutePath};
use lipl_storage::store::Lyric;

#[test]
fn level_names() {
    assert_eq!(level_to_str(Level::Critical), "critical");
    assert_eq!(level_to_str(Level::Error), "error");
    assert_eq!(level_to_str(Level::Warn), "warning");
    assert_eq!(level_to_str(Level::Info), "info");
    assert_eq!(level_to_str(Level::Debug), "debug");
    assert_eq!(level_to_str(Level::Trace), "trace");
}

#[test]
fn log_line_layout() {
    assert_eq!(
        log_line(Level::Warn, "ctx", "2024-01-01T00:00:00+00:00", "hello"),
        "ctx: 2024-01-01T00:00:00+00:00 warning: hello\n"
    );
}

#[test]
fn timestamps() {
    assert_eq!(timestamp_text(0, 0).unwrap(), "1970-01-01T00:00:00+00:00");
    assert_eq!(timestamp_text(86_400, 500_000_000).unwrap(), "1970-01-02T00:00:00.500+00:00");

}

#[test]
fn run_messages() {
    assert_eq!(lyrics_found_message(0), "found 0 lyrics");
    assert_eq!(lyrics_found_message(1234), "found 1234 lyrics");
    assert_eq!(record_summary("Title", "id1"), "Title (id1)");
}

#[test]
fn run_corrects_one_lyric() {
    let parts = vec![vec!["x".to_string()]];
    let lyric = Lyric {
        id: "QKKvuNZBAph1JaHLs3UNtu".to_string(),
        title: "Vader Jacob".to_string(),
        parts: parts.clone(),
    };
    let fixed = corrected_lyric(lyric).unwrap();
    assert_eq!(fixed.title, "Oh kleintje");
    assert_eq!(fixed.id, "QKKvuNZBAph1JaHLs3UNtu");
    assert_eq!(fixed.parts, parts);
    let other = Lyric { id: "other".to_string(), title: "T".to_string(), parts: vec![] };
    assert!(corrected_lyric(other).is_none());
}

#[test]
fn route_path_from_body_bytes() {
    let rp = RoutePath::new(Method::Post, "api/v1/lyric".to_string(), b"{\"a\":1}".to_vec());
    assert_eq!(rp.body.as_deref(), Some("{\"a\":1}"));
    assert_eq!(rp.path, "api/v1/lyric");
    assert_eq!(rp.method, Method::Post);
    let bad = RoutePath::new(Method::Get, "p".to_string(), vec![0xc3]);
    assert!(bad.body.is_none());
}

#[test]
fn run_failure_and_update_messages() {
    assert_eq!(lyrics_failed_message("boom"), "failed to get lyrics: boom");
    assert_eq!(title_updated_message(), "Updated lyric title to 'Vader Jacobje'");
}

#[test]
fn timestamps_carry_whole_seconds() {
    assert_eq!(timestamp_text(0, 1_500_000_000).unwrap(), "1970-01-01T00:00:01.500+00:00");
}

#[test]
fn answers() {
    assert_eq!(answer(Ok("[]".to_string())), Ok("[]".to_string()));
    assert_eq!(
        answer::<String>(Err("bad".to_string())),
        Err(ErrorCode::InternalError(Some("bad".to_string())))
    );
}
