use vstd::prelude::*;

use crate::logging::Level;
use crate::store::{Lyric, LyricView, Playlist, PlaylistView};
use crate::text::{decimal, decimal_string};

verus! {

/// The id of the lyric whose title the run corrects.
pub open spec fn corrected_lyric_id() -> Seq<char> {
    seq![
        'Q', 'K', 'K', 'v', 'u', 'N', 'Z', 'B', 'A', 'p', 'h', '1', 'J', 'a', 'H', 'L', 's',
        '3', 'U', 'N', 't', 'u',
    ]
}

/// The title that lyric gets.
pub open spec fn corrected_title() -> Seq<char> {
    seq!['O', 'h', ' ', 'k', 'l', 'e', 'i', 'n', 't', 'j', 'e']
}

/// The lyric to store again, if the run corrects this one: the lyric with
/// the corrected id gets the corrected title; any other is left alone.
pub fn corrected_lyric(lyric: Lyric) -> (r: Option<Lyric>)
    ensures
        r is Some <==> lyric.id@ == corrected_lyric_id(),
        r matches Some(l) ==> l.id == lyric.id && l.parts == lyric.parts && l.title@
            == corrected_title(),
{
    proof {
        reveal_strlit("QKKvuNZBAph1JaHLs3UNtu");
        reveal_strlit("Oh kleintje");
    }
    let target = "QKKvuNZBAph1JaHLs3UNtu".to_owned();
    assert(target@ =~= corrected_lyric_id());
    if lyric.id == target {
        let title = "Oh kleintje".to_owned();
        assert(title@ =~= corrected_title());
        Some(Lyric { id: lyric.id, title, parts: lyric.parts })
    } else {
        None
    }
}

/// The message that reports how many lyrics were found.
pub open spec fn lyrics_found_text(count: nat) -> Seq<char> {
    seq!['f', 'o', 'u', 'n', 'd', ' '] + decimal(count) + seq![' ', 'l', 'y', 'r', 'i', 'c', 's']
}

/// Reports how many lyrics were found: `found <count> lyrics`.
pub fn lyrics_found_message(count: u64) -> (r: String)
    ensures
        r@ == lyrics_found_text(count as nat),
{
    proof {
        reveal_strlit("found ");
        reveal_strlit(" lyrics");
    }
    let mut r = "found ".to_owned();
    r.append(decimal_string(count).as_str());
    r.append(" lyrics");
    assert(r@ =~= lyrics_found_text(count as nat));
    r
}

/// The line that names a record: `<title> (<id>)`.
pub open spec fn record_summary_text(title: Seq<char>, id: Seq<char>) -> Seq<char> {
    title + seq![' ', '('] + id + seq![')']
}

/// Names a lyric or a playlist in the log: `<title> (<id>)`.
pub fn record_summary(title: &str, id: &str) -> (r: String)
    ensures
        r@ == record_summary_text(title@, id@),
{
    proof {
        reveal_strlit(" (");
        reveal_strlit(")");
    }
    let mut r = title.to_owned();
    r.append(" (");
    r.append(id);
    r.append(")");
    assert(r@ =~= record_summary_text(title@, id@));
    r
}

/// The message that reports that the lyrics could not be read, given the
/// text of the error.
pub open spec fn lyrics_failed_text(error: Seq<char>) -> Seq<char> {
    seq![
        'f', 'a', 'i', 'l', 'e', 'd', ' ', 't', 'o', ' ', 'g', 'e', 't', ' ', 'l', 'y', 'r',
        'i', 'c', 's', ':', ' ',
    ] + error
}

/// Reports that the lyrics could not be read: `failed to get lyrics: <error>`.
pub fn lyrics_failed_message(error: &str) -> (r: String)
    ensures
        r@ == lyrics_failed_text(error@),
{
    proof {
        reveal_strlit("failed to get lyrics: ");
    }
    let mut r = "failed to get lyrics: ".to_owned();
    r.append(error);
    assert(r@ =~= lyrics_failed_text(error@));
    r
}

/// The message that reports a stored correction.
pub open spec fn title_updated_text() -> Seq<char> {
    seq![
        'U', 'p', 'd', 'a', 't', 'e', 'd', ' ', 'l', 'y', 'r', 'i', 'c', ' ', 't', 'i', 't',
        'l', 'e', ' ', 't', 'o', ' ', '\'', 'V', 'a', 'd', 'e', 'r', ' ', 'J', 'a', 'c', 'o',
        'b', 'j', 'e', '\'',
    ]
}

/// Reports that the corrected lyric was stored.
pub fn title_updated_message() -> (r: String)
    ensures
        r@ == title_updated_text(),
{
    proof {
        reveal_strlit("Updated lyric title to 'Vader Jacobje'");
    }
    let r = "Updated lyric title to 'Vader Jacobje'".to_owned();
    assert(r@ =~= title_updated_text());
    r
}

// ---------------------------------------------------------------------------
// The run, step by step
// ---------------------------------------------------------------------------

/// Where the run stands.
pub enum RunState {
    /// Nothing done yet.
    Start,
    /// Waiting for the lyrics.
    ReadingLyrics,
    /// Waiting for the corrected lyric to be stored; these lyrics come next.
    Updating(Vec<Lyric>),
    /// Waiting for the playlists.
    ReadingPlaylists,
    /// The run is over.
    Done,
}

/// What the outside world reports to the run.
pub enum RunEvent {
    /// The run is asked to begin.
    Begin,
    /// The lyrics, or the text of the error that reading them gave.
    LyricsRead(Result<Vec<Lyric>, String>),
    /// Whether storing the corrected lyric succeeded.
    Upserted(bool),
    /// The playlists, if they could be read.
    PlaylistsRead(Option<Vec<Playlist>>),
}

/// What the run asks of the outside world, in order.
pub enum RunAction {
    ReadLyrics,
    Log(Level, String),
    Upsert(Lyric),
    ReadPlaylists,
    Finish,
}

/// A run state as plain values.
pub enum RunStateView {
    Start,
    ReadingLyrics,
    Updating(Seq<LyricView>),
    ReadingPlaylists,
    Done,
}

/// A run event as plain values.
pub enum RunEventView {
    Begin,
    LyricsRead(Result<Seq<LyricView>, Seq<char>>),
    Upserted(bool),
    PlaylistsRead(Option<Seq<PlaylistView>>),
}

/// A run action as plain values.
pub enum RunActionView {
    ReadLyrics,
    Log(Level, Seq<char>),
    Upsert(LyricView),
    ReadPlaylists,
    Finish,
}

/// The views of lyrics.
pub open spec fn lyric_views(ls: Seq<Lyric>) -> Seq<LyricView> {
    ls.map_values(|l: Lyric| l@)
}

/// The views of playlists.
pub open spec fn playlist_list_views(ps: Seq<Playlist>) -> Seq<PlaylistView> {
    ps.map_values(|p: Playlist| p@)
}

/// The views of actions.
pub open spec fn action_views(actions: Seq<RunAction>) -> Seq<RunActionView> {
    actions.map_values(|a: RunAction| a@)
}

impl View for RunState {
    type V = RunStateView;

    open spec fn view(&self) -> RunStateView {
        match self {
            RunState::Start => RunStateView::Start,
            RunState::ReadingLyrics => RunStateView::ReadingLyrics,
            RunState::Updating(rest) => RunStateView::Updating(lyric_views(rest@)),
            RunState::ReadingPlaylists => RunStateView::ReadingPlaylists,
            RunState::Done => RunStateView::Done,
        }
    }
}

impl View for RunEvent {
    type V = RunEventView;

    open spec fn view(&self) -> RunEventView {
        match self {
            RunEvent::Begin => RunEventView::Begin,
            RunEvent::LyricsRead(Ok(ls)) => RunEventView::LyricsRead(Ok(lyric_views(ls@))),
            RunEvent::LyricsRead(Err(e)) => RunEventView::LyricsRead(Err(e@)),
            RunEvent::Upserted(ok) => RunEventView::Upserted(*ok),
            RunEvent::PlaylistsRead(Some(ps)) => RunEventView::PlaylistsRead(
                Some(playlist_list_views(ps@)),
            ),
            RunEvent::PlaylistsRead(None) => RunEventView::PlaylistsRead(None),
        }
    }
}

impl View for RunAction {
    type V = RunActionView;

    open spec fn view(&self) -> RunActionView {
        match self {
            RunAction::ReadLyrics => RunActionView::ReadLyrics,
            RunAction::Log(level, m) => RunActionView::Log(*level, m@),
            RunAction::Upsert(l) => RunActionView::Upsert(l@),
            RunAction::ReadPlaylists => RunActionView::ReadPlaylists,
            RunAction::Finish => RunActionView::Finish,
        }
    }
}

/// The lyric with the corrected title.
pub open spec fn corrected_view(l: LyricView) -> LyricView {
    LyricView { id: l.id, title: corrected_title(), parts: l.parts }
}

/// Going through the lyrics in order: each is logged by its title and id;
/// the one with the corrected id is stored with the corrected title, and the
/// run waits for that before the rest; after the last, the playlists are
/// read.
pub open spec fn review(ls: Seq<LyricView>) -> (RunStateView, Seq<RunActionView>)
    decreases ls.len(),
{
    if ls.len() == 0 {
        (RunStateView::ReadingPlaylists, seq![RunActionView::ReadPlaylists])
    } else {
        let l = ls[0];
        let log = RunActionView::Log(Level::Info, record_summary_text(l.title, l.id));
        if l.id == corrected_lyric_id() {
            (RunStateView::Updating(ls.skip(1)), seq![log, RunActionView::Upsert(corrected_view(l))])
        } else {
            let next = review(ls.skip(1));
            (next.0, seq![log] + next.1)
        }
    }
}

/// Each playlist logged by its title and id.
pub open spec fn playlist_logs(ps: Seq<PlaylistView>) -> Seq<RunActionView> {
    ps.map_values(
        |p: PlaylistView| RunActionView::Log(Level::Info, record_summary_text(p.title, p.id)),
    )
}

/// The next state of the run and what it asks for, given an event: it
/// reads the lyrics, logs how many there are (or the error), logs each one
/// and stores the corrected one (logging when that succeeded), then reads
/// and logs the playlists and finishes. An event that does not fit the
/// state changes nothing.
pub open spec fn run_spec(state: RunStateView, event: RunEventView) -> (RunStateView, Seq<RunActionView>) {
    match (state, event) {
        (RunStateView::Start, RunEventView::Begin) => (
            RunStateView::ReadingLyrics,
            seq![RunActionView::ReadLyrics],
        ),
        (RunStateView::ReadingLyrics, RunEventView::LyricsRead(Err(e))) => (
            RunStateView::ReadingPlaylists,
            seq![RunActionView::Log(Level::Error, lyrics_failed_text(e)), RunActionView::ReadPlaylists],
        ),
        (RunStateView::ReadingLyrics, RunEventView::LyricsRead(Ok(ls))) => {
            let next = review(ls);
            (next.0, seq![RunActionView::Log(Level::Info, lyrics_found_text(ls.len()))] + next.1)
        },
        (RunStateView::Updating(rest), RunEventView::Upserted(ok)) => {
            let next = review(rest);
            let done = if ok {
                seq![RunActionView::Log(Level::Info, title_updated_text())]
            } else {
                Seq::<RunActionView>::empty()
            };
            (next.0, done + next.1)
        },
        (RunStateView::ReadingPlaylists, RunEventView::PlaylistsRead(Some(ps))) => (
            RunStateView::Done,
            playlist_logs(ps).push(RunActionView::Finish),
        ),
        (RunStateView::ReadingPlaylists, RunEventView::PlaylistsRead(None)) => (
            RunStateView::Done,
            seq![RunActionView::Finish],
        ),
        (s, _) => (s, Seq::<RunActionView>::empty()),
    }
}

/// Goes through `lyrics`, adding to `actions` what [`review`] asks.
fn review_lyrics(lyrics: Vec<Lyric>, actions: &mut Vec<RunAction>) -> (s: RunState)
    ensures
        s@ == review(lyric_views(lyrics@)).0,
        action_views(final(actions)@) == action_views(old(actions)@) + review(
            lyric_views(lyrics@),
        ).1,
{
    let ghost all = lyric_views(lyrics@);
    let ghost start = action_views(actions@);
    let mut rest = lyrics;
    while rest.len() > 0
        invariant
            all == lyric_views(lyrics@),
            start == action_views(old(actions)@),
            review(all).0 == review(lyric_views(rest@)).0,
            start + review(all).1 == action_views(actions@) + review(lyric_views(rest@)).1,
        decreases rest.len(),
    {
        let ghost before = rest@;
        let ghost acts = action_views(actions@);
        let l = rest.remove(0);
        proof {
            assert(lyric_views(rest@) =~= lyric_views(before).skip(1));
            assert(lyric_views(before)[0] == l@);
        }
        let log = RunAction::Log(Level::Info, record_summary(l.title.as_str(), l.id.as_str()));
        actions.push(log);
        assert(action_views(actions@) =~= acts.push(log@));
        let ghost lv = l@;
        match corrected_lyric(l) {
            Some(c) => {
                let ghost acts2 = action_views(actions@);
                actions.push(RunAction::Upsert(c));
                assert(c@ == corrected_view(lv));
                assert(action_views(actions@) =~= acts2.push(RunActionView::Upsert(corrected_view(lv))));
                assert(start + review(all).1 =~= action_views(actions@));
                assert(RunState::Updating(rest)@ == review(lyric_views(before)).0);
                return RunState::Updating(rest);
            },
            None => {
                assert(acts + review(lyric_views(before)).1 =~= acts.push(log@) + review(
                    lyric_views(rest@),
                ).1);
            },
        }
    }
    let ghost acts = action_views(actions@);
    actions.push(RunAction::ReadPlaylists);
    assert(lyric_views(rest@) =~= Seq::<LyricView>::empty());
    assert(action_views(actions@) =~= acts.push(RunActionView::ReadPlaylists));
    RunState::ReadingPlaylists
}

/// One step of the run: the next state and the actions to perform, in
/// order, as [`run_spec`] describes them.
pub fn run_step(state: RunState, event: RunEvent) -> (r: (RunState, Vec<RunAction>))
    ensures
        r.0@ == run_spec(state@, event@).0,
        action_views(r.1@) == run_spec(state@, event@).1,
{
    let ghost sv = state@;
    let ghost ev = event@;
    let mut actions: Vec<RunAction> = Vec::new();
    match (state, event) {
        (RunState::Start, RunEvent::Begin) => {
            actions.push(RunAction::ReadLyrics);
            assert(action_views(actions@) =~= seq![RunActionView::ReadLyrics]);
            (RunState::ReadingLyrics, actions)
        },
        (RunState::ReadingLyrics, RunEvent::LyricsRead(Err(e))) => {
            let m = lyrics_failed_message(e.as_str());
            actions.push(RunAction::Log(Level::Error, m));
            actions.push(RunAction::ReadPlaylists);
            assert(action_views(actions@) =~= run_spec(sv, ev).1);
            (RunState::ReadingPlaylists, actions)
        },
        (RunState::ReadingLyrics, RunEvent::LyricsRead(Ok(ls))) => {
            let n = ls.len() as u64;
            actions.push(RunAction::Log(Level::Info, lyrics_found_message(n)));
            let ghost first = action_views(actions@);
            let s = review_lyrics(ls, &mut actions);
            assert(action_views(actions@) =~= run_spec(sv, ev).1);
            (s, actions)
        },
        (RunState::Updating(rest), RunEvent::Upserted(ok)) => {
            if ok {
                actions.push(RunAction::Log(Level::Info, title_updated_message()));
            }
            let ghost first = action_views(actions@);
            assert(first =~= if ok {
                seq![RunActionView::Log(Level::Info, title_updated_text())]
            } else {
                Seq::<RunActionView>::empty()
            });
            let s = review_lyrics(rest, &mut actions);
            (s, actions)
        },
        (RunState::ReadingPlaylists, RunEvent::PlaylistsRead(Some(ps))) => {
            let ghost pv = playlist_list_views(ps@);
            for p in it: ps.into_iter()
                invariant
                    pv == playlist_list_views(it.seq()),
                    action_views(actions@) =~= playlist_logs(pv.take(it.index() as int)),
            {
                let ghost k = it.index() as int;
                let ghost acts = action_views(actions@);
                actions.push(RunAction::Log(Level::Info, record_summary(p.title.as_str(), p.id.as_str())));
                assert(pv[k] == p@);
                assert(playlist_logs(pv.take(k + 1)) =~= playlist_logs(pv.take(k)).push(
                    RunActionView::Log(Level::Info, record_summary_text(pv[k].title, pv[k].id)),
                ));
            }
            let ghost acts = action_views(actions@);
            actions.push(RunAction::Finish);
            assert(pv.take(pv.len() as int) =~= pv);
            assert(action_views(actions@) =~= acts.push(RunActionView::Finish));
            (RunState::Done, actions)
        },
        (RunState::ReadingPlaylists, RunEvent::PlaylistsRead(None)) => {
            actions.push(RunAction::Finish);
            assert(action_views(actions@) =~= seq![RunActionView::Finish]);
            (RunState::Done, actions)
        },
        (s, _) => {
            assert(action_views(actions@) =~= Seq::<RunActionView>::empty());
            (s, actions)
        },
    }
}

/// Each lyric logged by its title and id.
pub open spec fn lyric_logs(ls: Seq<LyricView>) -> Seq<RunActionView> {
    ls.map_values(
        |l: LyricView| RunActionView::Log(Level::Info, record_summary_text(l.title, l.id)),
    )
}

/// When the playlists are read, the run logs one line `<title> (<id>)` per
/// playlist, every one of them and in their order, and then finishes.
pub proof fn law_run_logs_every_playlist(ps: Seq<PlaylistView>)
    ensures
        run_spec(RunStateView::ReadingPlaylists, RunEventView::PlaylistsRead(Some(ps))).0
            == RunStateView::Done,
        run_spec(RunStateView::ReadingPlaylists, RunEventView::PlaylistsRead(Some(ps))).1.len()
            == ps.len() + 1,
        forall|k: int|
            0 <= k < ps.len() ==> #[trigger] run_spec(
                RunStateView::ReadingPlaylists,
                RunEventView::PlaylistsRead(Some(ps)),
            ).1[k] == RunActionView::Log(Level::Info, record_summary_text(ps[k].title, ps[k].id)),
        run_spec(RunStateView::ReadingPlaylists, RunEventView::PlaylistsRead(Some(ps))).1[ps.len() as int]
            == RunActionView::Finish,
{
}

/// Without the lyric to correct, the run logs every lyric, in order, by its
/// title and id, and then reads the playlists.
pub proof fn law_review_logs_every_lyric(ls: Seq<LyricView>)
    requires
        forall|i: int| 0 <= i < ls.len() ==> (#[trigger] ls[i]).id != corrected_lyric_id(),
    ensures
        review(ls) == (
            RunStateView::ReadingPlaylists,
            lyric_logs(ls).push(RunActionView::ReadPlaylists),
        ),
    decreases ls.len(),
{
    if ls.len() == 0 {
        assert(lyric_logs(ls).push(RunActionView::ReadPlaylists) =~= seq![RunActionView::ReadPlaylists]);
    } else {
        let rest = ls.skip(1);
        assert forall|i: int| 0 <= i < rest.len() implies (#[trigger] rest[i]).id != corrected_lyric_id() by {
            assert(rest[i] == ls[i + 1]);
        }
        law_review_logs_every_lyric(rest);
        assert(ls[0].id != corrected_lyric_id());
        let log = RunActionView::Log(Level::Info, record_summary_text(ls[0].title, ls[0].id));
        assert(seq![log] + lyric_logs(rest).push(RunActionView::ReadPlaylists) =~= lyric_logs(ls).push(
            RunActionView::ReadPlaylists,
        ));
    }
}

/// The run logs the lyrics in order up to and including the first one with
/// the corrected id, asks to store that one with the corrected title (its
/// id and parts unchanged), and keeps the lyrics after it for later.
pub proof fn law_review_stops_at_correction(ls: Seq<LyricView>, k: int)
    requires
        0 <= k < ls.len(),
        ls[k].id == corrected_lyric_id(),
        forall|i: int| 0 <= i < k ==> (#[trigger] ls[i]).id != corrected_lyric_id(),
    ensures
        review(ls) == (
            RunStateView::Updating(ls.skip(k + 1)),
            lyric_logs(ls.take(k + 1)).push(RunActionView::Upsert(corrected_view(ls[k]))),
        ),
    decreases k,
{
    let log = RunActionView::Log(Level::Info, record_summary_text(ls[0].title, ls[0].id));
    let up = RunActionView::Upsert(corrected_view(ls[k]));
    if k == 0 {
        assert(lyric_logs(ls.take(1)).push(up) =~= seq![log, up]);
    } else {
        let rest = ls.skip(1);
        assert(rest[k - 1] == ls[k]);
        assert forall|i: int| 0 <= i < k - 1 implies (#[trigger] rest[i]).id != corrected_lyric_id() by {
            assert(rest[i] == ls[i + 1]);
        }
        law_review_stops_at_correction(rest, k - 1);
        assert(rest.skip(k) =~= ls.skip(k + 1));
        assert(seq![log] + lyric_logs(rest.take(k)).push(up) =~= lyric_logs(ls.take(k + 1)).push(up));
    }
}

/// A whole run without the lyric to correct: it reads the lyrics, logs how
/// many there are and then each of them in order, reads the playlists, logs
/// each of them in order and finishes.
pub proof fn law_run_without_correction(ls: Seq<LyricView>, ps: Seq<PlaylistView>)
    requires
        forall|i: int| 0 <= i < ls.len() ==> (#[trigger] ls[i]).id != corrected_lyric_id(),
    ensures
        ({
            let s1 = run_spec(RunStateView::Start, RunEventView::Begin);
            let s2 = run_spec(s1.0, RunEventView::LyricsRead(Ok(ls)));
            let s3 = run_spec(s2.0, RunEventView::PlaylistsRead(Some(ps)));
            &&& s3.0 == RunStateView::Done
            &&& s1.1 + s2.1 + s3.1 == seq![
                RunActionView::ReadLyrics,
                RunActionView::Log(Level::Info, lyrics_found_text(ls.len())),
            ] + lyric_logs(ls) + seq![RunActionView::ReadPlaylists] + playlist_logs(ps) + seq![
                RunActionView::Finish,
            ]
        }),
{
    law_review_logs_every_lyric(ls);
    let s1 = run_spec(RunStateView::Start, RunEventView::Begin);
    let s2 = run_spec(s1.0, RunEventView::LyricsRead(Ok(ls)));
    let s3 = run_spec(s2.0, RunEventView::PlaylistsRead(Some(ps)));
    assert(s1.1 + s2.1 + s3.1 =~= seq![
        RunActionView::ReadLyrics,
        RunActionView::Log(Level::Info, lyrics_found_text(ls.len())),
    ] + lyric_logs(ls) + seq![RunActionView::ReadPlaylists] + playlist_logs(ps) + seq![
        RunActionView::Finish,
    ]);
}

/// A whole run with the lyric to correct at `k`: it logs the lyrics up to
/// that one, asks to store it with the corrected title, logs the success of
/// that when it succeeded, logs the lyrics after it, and then reads, logs
/// and finishes with the playlists as always.
pub proof fn law_run_with_correction(
    ls: Seq<LyricView>,
    k: int,
    stored: bool,
    ps: Seq<PlaylistView>,
)
    requires
        0 <= k < ls.len(),
        ls[k].id == corrected_lyric_id(),
        forall|i: int| 0 <= i < ls.len() && i != k ==> (#[trigger] ls[i]).id != corrected_lyric_id(),
    ensures
        ({
            let s1 = run_spec(RunStateView::Start, RunEventView::Begin);
            let s2 = run_spec(s1.0, RunEventView::LyricsRead(Ok(ls)));
            let s3 = run_spec(s2.0, RunEventView::Upserted(stored));
            let s4 = run_spec(s3.0, RunEventView::PlaylistsRead(Some(ps)));
            &&& s4.0 == RunStateView::Done
            &&& s1.1 + s2.1 + s3.1 + s4.1 == seq![
                RunActionView::ReadLyrics,
                RunActionView::Log(Level::Info, lyrics_found_text(ls.len())),
            ] + lyric_logs(ls.take(k + 1)) + seq![RunActionView::Upsert(corrected_view(ls[k]))]
                + (if stored {
                seq![RunActionView::Log(Level::Info, title_updated_text())]
            } else {
                Seq::<RunActionView>::empty()
            }) + lyric_logs(ls.skip(k + 1)) + seq![RunActionView::ReadPlaylists] + playlist_logs(ps)
                + seq![RunActionView::Finish]
        }),
{
    assert forall|i: int| 0 <= i < k implies (#[trigger] ls[i]).id != corrected_lyric_id() by {
        assert(i != k);
    }
    law_review_stops_at_correction(ls, k);
    let rest = ls.skip(k + 1);
    assert forall|i: int| 0 <= i < rest.len() implies (#[trigger] rest[i]).id != corrected_lyric_id() by {
        assert(rest[i] == ls[i + k + 1]);
    }
    law_review_logs_every_lyric(rest);
    let s1 = run_spec(RunStateView::Start, RunEventView::Begin);
    let s2 = run_spec(s1.0, RunEventView::LyricsRead(Ok(ls)));
    let s3 = run_spec(s2.0, RunEventView::Upserted(stored));
    let s4 = run_spec(s3.0, RunEventView::PlaylistsRead(Some(ps)));
    let done = if stored {
        seq![RunActionView::Log(Level::Info, title_updated_text())]
    } else {
        Seq::<RunActionView>::empty()
    };
    assert(s3.1 == done + lyric_logs(rest).push(RunActionView::ReadPlaylists));
    assert(s1.1 + s2.1 + s3.1 + s4.1 =~= seq![
        RunActionView::ReadLyrics,
        RunActionView::Log(Level::Info, lyrics_found_text(ls.len())),
    ] + lyric_logs(ls.take(k + 1)) + seq![RunActionView::Upsert(corrected_view(ls[k]))] + done
        + lyric_logs(rest) + seq![RunActionView::ReadPlaylists] + playlist_logs(ps) + seq![
        RunActionView::Finish,
    ]);
}

} // verus!
