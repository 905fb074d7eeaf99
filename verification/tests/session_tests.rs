use playqueue::errors::CommandError;
use playqueue::queue::{CompletionOutcome, EnqueueMode, PlayState, QueueViewReply};
use playqueue::session::{JoinPlan, PlayOutcome, SessionManager};
use playqueue::track::{ResolutionState, TrackMeta};

const GUILD: u64 = 71;

fn meta(title: &str) -> TrackMeta {
    TrackMeta {
        title: Some(title.to_string()),
        duration_secs: Some(180),
        thumbnail: None,
    }
}

fn joined_manager() -> SessionManager {
    let mut m = SessionManager::new();
    m.join_complete(GUILD, true).unwrap();
    m
}

#[test]
fn join_needs_a_voice_channel() {
    let m = SessionManager::new();
    assert_eq!(m.join_request(GUILD, None), Err(CommandError::NotInVoiceChannel));
    assert_eq!(m.join_request(GUILD, Some(5)), Ok(JoinPlan::Connect(5)));
}

#[test]
fn failed_connection_leaves_no_session() {
    let mut m = SessionManager::new();
    assert_eq!(m.join_complete(GUILD, false), Err(CommandError::ConnectionError));
    assert!(!m.has_session(GUILD));
    assert_eq!(m.join_complete(GUILD, true), Ok(()));
    assert!(m.has_session(GUILD));
}

#[test]
fn joining_again_is_a_noop() {
    let mut m = joined_manager();
    assert_eq!(m.join_request(GUILD, Some(5)), Ok(JoinPlan::AlreadyConnected));
    assert_eq!(m.join_complete(GUILD, true), Ok(()));
    assert!(m.has_session(GUILD));
    assert_eq!(m.leave(GUILD), Ok(()));
    assert!(!m.has_session(GUILD));
}

#[test]
fn leave_without_session_is_reported() {
    let mut m = SessionManager::new();
    assert_eq!(m.leave(GUILD), Err(CommandError::NoActiveSession));
}

#[test]
fn play_validates_and_enqueues() {
    let mut m = joined_manager();
    assert_eq!(
        m.play(GUILD, "notaurl".to_string(), EnqueueMode::Back, Ok(meta("x"))),
        Err(CommandError::InvalidArgument)
    );
    assert_eq!(
        m.play(GUILD, "http://a".to_string(), EnqueueMode::Back, Ok(meta("First"))),
        Ok(PlayOutcome { position: 1, started: true })
    );
    let cur = m.current(GUILD).unwrap().unwrap();
    assert_eq!(cur.title.as_deref(), Some("First"));
    assert_eq!(cur.state, ResolutionState::Ready);

    assert_eq!(
        m.play(9999, "http://a".to_string(), EnqueueMode::Back, Ok(meta("x"))),
        Err(CommandError::NoActiveSession)
    );
}

#[test]
fn failed_resolution_is_still_enqueued() {
    let mut m = joined_manager();
    let r = m
        .play(GUILD, "http://a".to_string(), EnqueueMode::Back, Err("boom".to_string()))
        .unwrap();
    assert_eq!(r, PlayOutcome { position: 1, started: true });
    let cur = m.current(GUILD).unwrap().unwrap();
    assert_eq!(cur.state, ResolutionState::Failed("boom".to_string()));
}

#[test]
fn playlist_window_queues_capped_slice() {
    let mut m = joined_manager();
    let members: Vec<String> = (1..=120).map(|i| format!("http://m/{i}")).collect();
    let r = m
        .playlist(GUILD, "http://playlist?list=PL", 5, 50, Ok(members))
        .unwrap();
    assert_eq!(r.queued, 50);
    assert_eq!(r.total, 50);
    assert!(r.started);

    let snap = m.snapshot(GUILD).unwrap();
    assert_eq!(snap.entries.len(), 50);
    // Original playlist positions 5..54, in order.
    for (i, t) in snap.entries.iter().enumerate() {
        assert_eq!(t.source_url, format!("http://m/{}", i + 5));
        assert_eq!(t.state, ResolutionState::Pending);
    }
    assert_eq!(snap.cursor, Some(0));
    assert_eq!(snap.play, PlayState::Playing);
}

#[test]
fn playlist_listing_failure_is_nonfatal() {
    let mut m = joined_manager();
    assert_eq!(
        m.playlist(GUILD, "http://playlist", 1, 50, Err("listing failed".to_string())),
        Err(CommandError::ListError)
    );
    assert!(m.has_session(GUILD));
    assert_eq!(m.snapshot(GUILD).unwrap().entries.len(), 0);
}

#[test]
fn playlist_rejects_malformed_url() {
    let mut m = joined_manager();
    assert_eq!(
        m.playlist(GUILD, "foobar", 1, 50, Ok(vec!["http://m/1".to_string()])),
        Err(CommandError::InvalidArgument)
    );
}

#[test]
fn one_failed_member_does_not_block_the_rest() {
    let mut m = joined_manager();
    let members: Vec<String> = (0..3).map(|i| format!("http://m/{i}")).collect();
    m.playlist(GUILD, "http://playlist?list=PL", 1, 50, Ok(members)).unwrap();
    // The second member fails to resolve; the others stay playable.
    assert_eq!(m.apply_resolution(GUILD, 1, Err("dead link".to_string())), Ok(true));
    let gen = m.playback_generation(GUILD).unwrap();
    assert_eq!(m.on_track_complete(GUILD, gen), Ok(CompletionOutcome::Advanced));
    let skipped = m.advance_past_failed(GUILD).unwrap();
    assert_eq!(skipped.len(), 1);
    assert_eq!(skipped[0].source_url, "http://m/1");
    let cur = m.current(GUILD).unwrap().unwrap();
    assert_eq!(cur.source_url, "http://m/2");
}

#[test]
fn deafen_toggles_and_reports_noops() {
    let mut m = joined_manager();
    assert_eq!(m.set_deaf(GUILD, true), Ok(true));
    assert_eq!(m.set_deaf(GUILD, true), Ok(false));
    assert_eq!(m.set_deaf(GUILD, false), Ok(true));
    assert_eq!(m.set_deaf(GUILD, false), Ok(false));
    let mut empty = SessionManager::new();
    assert_eq!(empty.set_deaf(GUILD, true), Err(CommandError::NoActiveSession));
}

#[test]
fn skip_signal_depends_on_playback() {
    let mut m = joined_manager();
    assert_eq!(m.skip(GUILD), Ok(false));
    m.play(GUILD, "http://a".to_string(), EnqueueMode::Back, Ok(meta("x"))).unwrap();
    assert_eq!(m.skip(GUILD), Ok(true));
    assert_eq!(SessionManager::new().skip(GUILD), Err(CommandError::NoActiveSession));
}

#[test]
fn commands_need_a_session() {
    let mut m = SessionManager::new();
    assert_eq!(m.pause(GUILD), Err(CommandError::NoActiveSession));
    assert_eq!(m.resume(GUILD), Err(CommandError::NoActiveSession));
    assert_eq!(m.stop(GUILD), Err(CommandError::NoActiveSession));
    assert_eq!(m.remove(GUILD, 1), Err(CommandError::NoActiveSession));
    assert_eq!(m.seek(GUILD, 10), Err(CommandError::NoActiveSession));
    assert_eq!(m.queue_view(GUILD, 1), Err(CommandError::NoActiveSession));
    assert_eq!(m.on_track_complete(GUILD, 0), Err(CommandError::NoActiveSession));
}

#[test]
fn manager_remove_protects_live_entry() {
    let mut m = joined_manager();
    m.play(GUILD, "http://a".to_string(), EnqueueMode::Back, Ok(meta("a"))).unwrap();
    m.play(GUILD, "http://b".to_string(), EnqueueMode::Back, Ok(meta("b"))).unwrap();
    assert_eq!(m.remove(GUILD, 1).unwrap_err(), CommandError::LiveEntry);
    let gone = m.remove(GUILD, 2).unwrap();
    assert_eq!(gone.source_url, "http://b");
    assert_eq!(m.remove(GUILD, 2).unwrap_err(), CommandError::OutOfRange);
}

#[test]
fn manager_pause_resume_and_seek() {
    let mut m = joined_manager();
    assert_eq!(m.seek(GUILD, 42), Err(CommandError::NotPlaying));
    m.play(GUILD, "http://a".to_string(), EnqueueMode::Back, Ok(meta("a"))).unwrap();
    assert_eq!(m.seek(GUILD, 42), Ok(42));
    assert_eq!(m.pause(GUILD), Ok(true));
    assert_eq!(m.pause(GUILD), Ok(false));
    assert_eq!(m.resume(GUILD), Ok(true));
}

#[test]
fn manager_stop_clears_queue() {
    let mut m = joined_manager();
    m.play(GUILD, "http://a".to_string(), EnqueueMode::Back, Ok(meta("a"))).unwrap();
    m.play(GUILD, "http://b".to_string(), EnqueueMode::Back, Ok(meta("b"))).unwrap();
    let gen = m.playback_generation(GUILD).unwrap();
    assert_eq!(m.stop(GUILD), Ok(()));
    let snap = m.snapshot(GUILD).unwrap();
    assert!(snap.entries.is_empty());
    assert_eq!(snap.play, PlayState::Stopped);
    // A completion event from before the stop is stale.
    assert_eq!(m.on_track_complete(GUILD, gen), Ok(CompletionOutcome::Stale));
}

#[test]
fn queue_view_shows_pages() {
    let mut m = joined_manager();
    assert_eq!(m.queue_view(GUILD, 1), Ok(QueueViewReply::Empty));
    for i in 0..12 {
        m.play(GUILD, format!("http://t/{i}"), EnqueueMode::Back, Ok(meta("t"))).unwrap();
    }
    match m.queue_view(GUILD, 1).unwrap() {
        QueueViewReply::Page(p) => {
            assert_eq!(p.now_playing.source_url, "http://t/0");
            assert_eq!(p.upcoming.len(), 10);
            assert_eq!(p.page_count, 2);
        },
        QueueViewReply::Empty => panic!("queue has entries"),
    }
    match m.queue_view(GUILD, 2).unwrap() {
        QueueViewReply::Page(p) => {
            assert_eq!(p.upcoming.len(), 1);
            assert_eq!(p.first_position, 11);
        },
        QueueViewReply::Empty => panic!("queue has entries"),
    }
    assert_eq!(m.queue_view(GUILD, 3), Err(CommandError::OutOfRange));
}

#[test]
fn sessions_are_independent_per_guild() {
    let mut m = SessionManager::new();
    m.join_complete(1, true).unwrap();
    m.join_complete(2, true).unwrap();
    m.play(1, "http://a".to_string(), EnqueueMode::Back, Ok(meta("a"))).unwrap();
    assert_eq!(m.snapshot(1).unwrap().entries.len(), 1);
    assert_eq!(m.snapshot(2).unwrap().entries.len(), 0);
    m.leave(1).unwrap();
    assert!(!m.has_session(1));
    assert!(m.has_session(2));
}
