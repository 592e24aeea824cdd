use lipl_storage::logging::Level;
use lipl_storage::run::{run_step, RunAction, RunEvent, RunState};
use lipl_storage::store::{Lyric, Playlist};

fn lyric(id: &str, title: &str) -> Lyric {
    Lyric { id: id.to_string(), title: title.to_string(), parts: vec![vec!["x".to_string()]] }
}

fn logs(actions: &[RunAction]) -> Vec<String> {
    actions
        .iter()
        .filter_map(|a| match a {
            RunAction::Log(_, m) => Some(m.clone()),
            _ => None,
        })
        .collect()
}

#[test]
fn run_reads_corrects_and_lists() {
    let (s, a) = run_step(RunState::Start, RunEvent::Begin);
    assert!(matches!(s, RunState::ReadingLyrics));
    assert!(matches!(a.as_slice(), [RunAction::ReadLyrics]));

    let lyrics = vec![
        lyric("a", "A"),
        lyric("QKKvuNZBAph1JaHLs3UNtu", "Vader Jacob"),
        lyric("c", "C"),
    ];
    let (s, a) = run_step(s, RunEvent::LyricsRead(Ok(lyrics)));
    assert_eq!(logs(&a), vec!["found 3 lyrics", "A (a)", "Vader Jacob (QKKvuNZBAph1JaHLs3UNtu)"]);
    match a.last() {
        Some(RunAction::Upsert(l)) => {
            assert_eq!(l.title, "Oh kleintje");
            assert_eq!(l.id, "QKKvuNZBAph1JaHLs3UNtu");
        },
        _ => panic!("expected an upsert"),
    }
    let rest = match &s {
        RunState::Updating(rest) => rest.len(),
        _ => panic!("expected to wait for the upsert"),
    };
    assert_eq!(rest, 1);

    let (s, a) = run_step(s, RunEvent::Upserted(true));
    assert_eq!(logs(&a), vec!["Updated lyric title to 'Vader Jacobje'", "C (c)"]);
    assert!(matches!(a.last(), Some(RunAction::ReadPlaylists)));
    assert!(matches!(s, RunState::ReadingPlaylists));

    let ps = vec![Playlist { id: "p".to_string(), title: "P".to_string(), members: vec![] }];
    let (s, a) = run_step(s, RunEvent::PlaylistsRead(Some(ps)));
    assert_eq!(logs(&a), vec!["P (p)"]);
    assert!(matches!(a.last(), Some(RunAction::Finish)));
    assert!(matches!(s, RunState::Done));
}

#[test]
fn run_after_failures() {
    let (s, a) = run_step(RunState::ReadingLyrics, RunEvent::LyricsRead(Err("gone".to_string())));
    assert!(matches!(s, RunState::ReadingPlaylists));
    assert!(matches!(&a[0], RunAction::Log(Level::Error, m) if m == "failed to get lyrics: gone"));
    assert!(matches!(a[1], RunAction::ReadPlaylists));

    let (s, a) = run_step(RunState::Updating(vec![]), RunEvent::Upserted(false));
    assert!(logs(&a).is_empty());
    assert!(matches!(s, RunState::ReadingPlaylists));

    let (s, a) = run_step(RunState::ReadingPlaylists, RunEvent::PlaylistsRead(None));
    assert!(matches!(s, RunState::Done));
    assert!(matches!(a.as_slice(), [RunAction::Finish]));

    let (s, a) = run_step(RunState::Done, RunEvent::Begin);
    assert!(matches!(s, RunState::Done));
    assert!(a.is_empty());
}
