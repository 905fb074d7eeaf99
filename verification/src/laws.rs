use vstd::prelude::*;

use crate::queue::{failed_prefix_len, lemma_failed_prefix, EnqueueMode, PlayState, QueueModel};
use crate::track::TrackModel;

verus! {

/// Enqueueing any sequence of entries at the back appends exactly those
/// entries, in order, with none lost and none duplicated. On a stopped
/// queue the first entry starts playback with the cursor on it; on a queue
/// with a current entry, neither the cursor nor the playback state moves.
pub proof fn lemma_enqueue_back_sequence(m: QueueModel, ts: Seq<TrackModel>)
    requires
        m.wf(),
    ensures
        ({
            let r = m.enqueued_all(ts);
            r.wf() && r.entries == m.entries + ts && r.generation == m.generation && (m.cursor
                is Some ==> r.cursor == m.cursor && r.play == m.play) && ((m.cursor is None
                && ts.len() > 0) ==> r.cursor == Some(m.entries.len() as int) && r.play
                == PlayState::Playing) && (ts.len() == 0 ==> r == m)
        }),
    decreases ts.len(),
{
    if ts.len() == 0 {
        assert(m.entries + ts =~= m.entries);
    } else {
        let m1 = m.enqueued(ts[0], EnqueueMode::Back);
        lemma_enqueue_back_sequence(m1, ts.drop_first());
        assert(m1.entries + ts.drop_first() =~= m.entries + ts);
    }
}

/// The first entry enqueued onto an empty, stopped queue starts playback
/// with the cursor on it; every later entry of the same sequence only
/// appends, leaving the cursor where it is.
pub proof fn lemma_first_enqueue_starts(m: QueueModel, ts: Seq<TrackModel>)
    requires
        m.wf(),
        m.entries.len() == 0,
        m.cursor is None,
        ts.len() > 0,
    ensures
        m.enqueued_all(ts).entries == ts,
        m.enqueued_all(ts).cursor == Some(0int),
        m.enqueued_all(ts).play == PlayState::Playing,
{
    lemma_enqueue_back_sequence(m, ts);
    assert(m.entries + ts =~= ts);
}

/// A front-insert lands right after the current entry at display position
/// `k + 2` (the current entry showing as `k + 1`), and once the current
/// entry finishes or is skipped, the inserted entry is the one that plays.
pub proof fn lemma_front_insert_plays_next(m: QueueModel, t: TrackModel)
    requires
        m.wf(),
        m.cursor is Some,
    ensures
        ({
            let k = m.cursor->0;
            let m2 = m.enqueued(t, EnqueueMode::Front);
            m2.wf() && m2.entries[k + 1] == t && m.enqueue_position(EnqueueMode::Front) == k + 2
                && ({
                let m3 = m2.completed(m2.generation);
                m3.cursor == Some(k) && m3.entries[k] == t && m3.play == PlayState::Playing
            })
        }),
{
    let k = m.cursor->0;
    let m2 = m.enqueued(t, EnqueueMode::Front);
    let m3 = m2.completed(m2.generation);
    assert(m2.entries.remove(k)[k] == m2.entries[k + 1]);
}

/// `pause` then `resume` on a playing queue restores the state exactly:
/// entries, cursor and generation never moved, and the playback state
/// cycles back to playing.
pub proof fn lemma_pause_resume_roundtrip(m: QueueModel)
    requires
        m.play == PlayState::Playing,
    ensures
        m.paused().resumed() == m,
        m.paused().entries == m.entries,
        m.paused().cursor == m.cursor,
{
    assert(m.paused().resumed() =~= m);
}

/// Skipping over failed entries removes only entries whose resolution
/// failed, and playback lands on an entry that did not fail, or stops when
/// only failures remained: one failed member never blocks the rest.
pub proof fn lemma_failures_do_not_block(m: QueueModel)
    requires
        m.wf(),
    ensures
        ({
            let a = m.advanced();
            a.wf() && (match m.cursor {
                Some(k) => {
                    let r = failed_prefix_len(m.entries.skip(k));
                    (forall|j: int|
                        k <= j < k + r ==> (#[trigger] m.entries[j].state) is Failed) && (a.cursor
                        is Some ==> a.cursor == Some(k) && a.entries[k] == m.entries[k + r] && !(
                    a.entries[k].state is Failed)) && a.entries == m.entries.subrange(0, k)
                        + m.entries.skip(k + r)
                },
                None => a == m,
            })
        }),
{
    match m.cursor {
        None => {
        },
        Some(k) => {
            let s = m.entries.skip(k);
            let r = failed_prefix_len(s);
            lemma_failed_prefix(s);
            assert forall|j: int| k <= j < k + r implies (#[trigger] m.entries[j].state)
                is Failed by {
                assert(s[j - k] == m.entries[j]);
            }
            let a = m.advanced();
            if r == 0 {
                assert(m.entries.subrange(0, k) + m.entries.skip(k) =~= m.entries);
                if k < m.entries.len() {
                    assert(s[0] == m.entries[k]);
                }
            } else {
                let e = m.entries.subrange(0, k) + m.entries.skip(k + r);
                if k < e.len() {
                    assert(e[k] == m.entries.skip(k + r)[0]);
                    assert(m.entries.skip(k + r)[0] == m.entries[k + r]);
                    assert(s[r] == m.entries[k + r]);
                }
            }
        },
    }
}

} // verus!
