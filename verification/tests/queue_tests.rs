use playqueue::errors::CommandError;
use playqueue::queue::{
    CompletionOutcome, EnqueueMode, PlayState, PlaybackQueue, QueueViewReply,
};
use playqueue::track::{ResolutionState, TrackDescriptor, TrackMeta};

fn track(url: &str) -> TrackDescriptor {
    TrackDescriptor {
        source_url: url.to_string(),
        title: None,
        duration_secs: None,
        thumbnail: None,
        state: ResolutionState::Pending,
    }
}

fn urls_of(entries: &[TrackDescriptor]) -> Vec<String> {
    entries.iter().map(|t| t.source_url.clone()).collect()
}

#[test]
fn first_enqueue_starts_playback() {
    let mut q = PlaybackQueue::new();
    let s0 = q.snapshot();
    assert_eq!(s0.play, PlayState::Stopped);
    assert_eq!(s0.cursor, None);

    let (pos, started) = q.enqueue(track("http://a"), EnqueueMode::Back);
    assert_eq!(pos, 1);
    assert!(started);
    let s1 = q.snapshot();
    assert_eq!(s1.play, PlayState::Playing);
    assert_eq!(s1.cursor, Some(0));

    let (pos2, started2) = q.enqueue(track("http://b"), EnqueueMode::Back);
    assert_eq!(pos2, 2);
    assert!(!started2);
    let (pos3, started3) = q.enqueue(track("http://c"), EnqueueMode::Back);
    assert_eq!(pos3, 3);
    assert!(!started3);

    let s2 = q.snapshot();
    assert_eq!(s2.cursor, Some(0));
    assert_eq!(s2.play, PlayState::Playing);
    assert_eq!(urls_of(&s2.entries), vec!["http://a", "http://b", "http://c"]);
}

#[test]
fn front_insert_reports_next_position_and_plays_next() {
    let mut q = PlaybackQueue::new();
    q.enqueue(track("http://a"), EnqueueMode::Back);
    q.enqueue(track("http://b"), EnqueueMode::Back);
    q.enqueue(track("http://c"), EnqueueMode::Back);

    // The current entry displays at position 1, so the insert lands at 2.
    let (pos, started) = q.enqueue(track("http://now"), EnqueueMode::Front);
    assert_eq!(pos, 2);
    assert!(!started);
    assert_eq!(
        urls_of(&q.snapshot().entries),
        vec!["http://a", "http://now", "http://b", "http://c"]
    );

    // Once the current entry finishes, the inserted one is playing.
    let gen = q.generation();
    assert_eq!(q.on_track_complete(gen), CompletionOutcome::Advanced);
    let cur = q.current().unwrap();
    assert_eq!(cur.source_url, "http://now");
}

#[test]
fn skip_advances_to_next_entry() {
    let mut q = PlaybackQueue::new();
    q.enqueue(track("http://a"), EnqueueMode::Back);
    q.enqueue(track("http://b"), EnqueueMode::Back);
    q.enqueue(track("http://c"), EnqueueMode::Back);

    assert!(q.skip());
    let gen = q.generation();
    assert_eq!(q.on_track_complete(gen), CompletionOutcome::Advanced);
    let s = q.snapshot();
    assert_eq!(urls_of(&s.entries), vec!["http://b", "http://c"]);
    assert_eq!(s.cursor, Some(0));
    assert_eq!(q.current().unwrap().source_url, "http://b");
}

#[test]
fn skip_on_last_entry_stops() {
    let mut q = PlaybackQueue::new();
    q.enqueue(track("http://a"), EnqueueMode::Back);
    assert!(q.skip());
    let gen = q.generation();
    assert_eq!(q.on_track_complete(gen), CompletionOutcome::Drained);
    let s = q.snapshot();
    assert!(s.entries.is_empty());
    assert_eq!(s.play, PlayState::Stopped);
    assert_eq!(s.cursor, None);
    // Skipping a stopped queue signals nothing.
    assert!(!q.skip());
}

#[test]
fn remove_spares_the_live_entry() {
    let mut q = PlaybackQueue::new();
    q.enqueue(track("http://a"), EnqueueMode::Back);
    q.enqueue(track("http://b"), EnqueueMode::Back);
    q.enqueue(track("http://c"), EnqueueMode::Back);

    let removed = q.remove(2).unwrap();
    assert_eq!(removed.source_url, "http://b");
    assert_eq!(urls_of(&q.snapshot().entries), vec!["http://a", "http://c"]);

    // The live entry must go through skip, not remove.
    assert_eq!(q.remove(1), Err(CommandError::LiveEntry));
    assert_eq!(q.remove(3), Err(CommandError::OutOfRange));
    assert_eq!(q.remove(0), Err(CommandError::OutOfRange));
    assert_eq!(urls_of(&q.snapshot().entries), vec!["http://a", "http://c"]);
}

#[test]
fn pause_resume_restores_state() {
    let mut q = PlaybackQueue::new();
    q.enqueue(track("http://a"), EnqueueMode::Back);
    q.enqueue(track("http://b"), EnqueueMode::Back);
    let before = q.snapshot();

    assert!(q.pause());
    assert_eq!(q.snapshot().play, PlayState::Paused);
    assert!(q.resume());
    let after = q.snapshot();
    assert_eq!(before.entries, after.entries);
    assert_eq!(before.cursor, after.cursor);
    assert_eq!(before.play, after.play);

    // Pausing twice reports the second as a no-op.
    assert!(q.pause());
    assert!(!q.pause());
    assert!(q.resume());
    assert!(!q.resume());
}

#[test]
fn pause_on_stopped_queue_is_a_reported_noop() {
    let mut q = PlaybackQueue::new();
    assert!(!q.pause());
    assert!(!q.resume());
    assert_eq!(q.snapshot().play, PlayState::Stopped);
}

#[test]
fn snapshot_unchanged_by_display() {
    let mut q = PlaybackQueue::new();
    q.enqueue(track("http://a"), EnqueueMode::Back);
    q.enqueue(track("http://b"), EnqueueMode::Back);
    let before = q.snapshot();
    let _ = before.view_page(1).unwrap();
    let after = q.snapshot();
    assert_eq!(before.entries, after.entries);
    assert_eq!(before.cursor, after.cursor);
    assert_eq!(before.play, after.play);
}

#[test]
fn serialized_enqueues_lose_nothing() {
    let mut q = PlaybackQueue::new();
    let n = 25;
    for i in 0..n {
        let (pos, _) = q.enqueue(track(&format!("http://t/{i}")), EnqueueMode::Back);
        assert_eq!(pos, i + 1);
    }
    assert_eq!(q.len(), n);
    let s = q.snapshot();
    for (i, t) in s.entries.iter().enumerate() {
        assert_eq!(t.source_url, format!("http://t/{i}"));
    }
}

#[test]
fn stop_clears_and_stales_old_completions() {
    let mut q = PlaybackQueue::new();
    q.enqueue(track("http://a"), EnqueueMode::Back);
    q.enqueue(track("http://b"), EnqueueMode::Back);
    let old_gen = q.generation();
    q.stop();
    let s = q.snapshot();
    assert!(s.entries.is_empty());
    assert_eq!(s.play, PlayState::Stopped);
    assert_eq!(s.cursor, None);
    assert_eq!(q.generation(), old_gen + 1);

    // A completion event from the just-stopped stream is a no-op.
    assert_eq!(q.on_track_complete(old_gen), CompletionOutcome::Stale);
    assert!(q.snapshot().entries.is_empty());
}

#[test]
fn failed_entries_are_skipped_over() {
    let mut q = PlaybackQueue::new();
    q.enqueue(track("http://a"), EnqueueMode::Back);
    q.enqueue(track("http://b"), EnqueueMode::Back);
    q.enqueue(track("http://c"), EnqueueMode::Back);
    q.enqueue(track("http://d"), EnqueueMode::Back);
    assert!(q.apply_resolution(1, Err("no stream".to_string())));
    assert!(q.apply_resolution(2, Err("gone".to_string())));

    let gen = q.generation();
    assert_eq!(q.on_track_complete(gen), CompletionOutcome::Advanced);
    let skipped = q.advance_past_failed();
    assert_eq!(urls_of(&skipped), vec!["http://b", "http://c"]);
    assert_eq!(q.current().unwrap().source_url, "http://d");
    assert_eq!(q.snapshot().play, PlayState::Playing);
}

#[test]
fn only_failed_entries_left_stops_playback() {
    let mut q = PlaybackQueue::new();
    q.enqueue(track("http://a"), EnqueueMode::Back);
    q.enqueue(track("http://b"), EnqueueMode::Back);
    assert!(q.apply_resolution(1, Err("dead".to_string())));
    let gen = q.generation();
    assert_eq!(q.on_track_complete(gen), CompletionOutcome::Advanced);
    let skipped = q.advance_past_failed();
    assert_eq!(urls_of(&skipped), vec!["http://b"]);
    let s = q.snapshot();
    assert!(s.entries.is_empty());
    assert_eq!(s.play, PlayState::Stopped);
}

#[test]
fn resolution_outcome_fills_metadata() {
    let mut q = PlaybackQueue::new();
    q.enqueue(track("http://a"), EnqueueMode::Back);
    let meta = TrackMeta {
        title: Some("Song".to_string()),
        duration_secs: Some(125),
        thumbnail: Some("http://thumb".to_string()),
    };
    assert!(q.apply_resolution(0, Ok(meta)));
    let cur = q.current().unwrap();
    assert_eq!(cur.state, ResolutionState::Ready);
    assert_eq!(cur.title.as_deref(), Some("Song"));
    assert_eq!(cur.duration_secs, Some(125));
    assert_eq!(cur.source_url, "http://a");

    // An index past the entries changes nothing.
    assert!(!q.apply_resolution(9, Err("late".to_string())));
}

#[test]
fn seek_requires_a_current_entry() {
    let mut q = PlaybackQueue::new();
    assert_eq!(q.seek(30), Err(CommandError::NotPlaying));
    q.enqueue(track("http://a"), EnqueueMode::Back);
    assert_eq!(q.seek(30), Ok(30));
}

#[test]
fn queue_pages_follow_the_cursor() {
    let mut q = PlaybackQueue::new();
    for i in 0..24 {
        q.enqueue(track(&format!("http://t/{i}")), EnqueueMode::Back);
    }
    let s = q.snapshot();

    let p1 = match s.view_page(1).unwrap() {
        QueueViewReply::Page(p) => p,
        QueueViewReply::Empty => panic!("queue is not empty"),
    };
    assert_eq!(p1.now_playing.source_url, "http://t/0");
    assert_eq!(urls_of(&p1.upcoming).first().map(String::as_str), Some("http://t/1"));
    assert_eq!(p1.upcoming.len(), 10);
    assert_eq!(p1.first_position, 1);
    assert_eq!(p1.page_count, 3);

    let p3 = match s.view_page(3).unwrap() {
        QueueViewReply::Page(p) => p,
        QueueViewReply::Empty => panic!("queue is not empty"),
    };
    assert_eq!(p3.upcoming.len(), 3);
    assert_eq!(p3.first_position, 21);
    assert_eq!(urls_of(&p3.upcoming), vec!["http://t/21", "http://t/22", "http://t/23"]);

    assert_eq!(s.view_page(4), Err(CommandError::OutOfRange));
    assert_eq!(s.view_page(0), Err(CommandError::OutOfRange));

    let empty = PlaybackQueue::new().snapshot();
    assert_eq!(empty.view_page(1), Ok(QueueViewReply::Empty));
}
