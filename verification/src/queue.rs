use vstd::prelude::*;

use crate::errors::CommandError;
use crate::track::{
    failed_model, resolved_model, ResolutionState, TrackDescriptor, TrackMeta, TrackModel,
};

verus! {

/// The models of a sequence of descriptors, in order.
pub open spec fn views_of(s: Seq<TrackDescriptor>) -> Seq<TrackModel> {
    s.map_values(|t: TrackDescriptor| t@)
}

/// How many consecutive entries at the front of `s` have failed resolution.
pub open spec fn failed_prefix_len(s: Seq<TrackModel>) -> int
    decreases s.len(),
{
    if s.len() == 0 {
        0
    } else if s[0].state is Failed {
        1 + failed_prefix_len(s.drop_first())
    } else {
        0
    }
}

/// The failed prefix is a well-delimited run: all entries in it failed, and
/// the entry after it, if any, did not.
pub proof fn lemma_failed_prefix(s: Seq<TrackModel>)
    ensures
        0 <= failed_prefix_len(s) <= s.len(),
        forall|j: int| 0 <= j < failed_prefix_len(s) ==> s[j].state is Failed,
        failed_prefix_len(s) < s.len() ==> !(s[failed_prefix_len(s)].state is Failed),
    decreases s.len(),
{
    if s.len() > 0 && s[0].state is Failed {
        lemma_failed_prefix(s.drop_first());
        assert forall|j: int| 0 <= j < failed_prefix_len(s) implies s[j].state
            is Failed by {
            if j > 0 {
                assert(s.drop_first()[j - 1] == s[j]);
            }
        }
        if failed_prefix_len(s) < s.len() {
            assert(s.drop_first()[failed_prefix_len(s) - 1] == s[failed_prefix_len(s)]);
        }
    }
}

/// A run of `c` failed entries at the front, ended by the sequence's end or
/// by an entry that did not fail, is exactly the failed prefix.
pub proof fn lemma_failed_prefix_eq(s: Seq<TrackModel>, c: int)
    requires
        0 <= c <= s.len(),
        forall|j: int| 0 <= j < c ==> s[j].state is Failed,
        c < s.len() ==> !(s[c].state is Failed),
    ensures
        failed_prefix_len(s) == c,
    decreases s.len(),
{
    if c == 0 {
    } else {
        assert(s[0].state is Failed);
        assert forall|j: int| 0 <= j < c - 1 implies s.drop_first()[j].state
            is Failed by {
            assert(s.drop_first()[j] == s[j + 1]);
        }
        if c - 1 < s.drop_first().len() {
            assert(s.drop_first()[c - 1] == s[c]);
        }
        lemma_failed_prefix_eq(s.drop_first(), c - 1);
    }
}

/// Whether the session is streaming, holding, or idle.
#[derive(Clone, Copy, Debug, PartialEq, Eq, Structural)]
pub enum PlayState {
    Stopped,
    Playing,
    Paused,
}

/// Where an enqueue puts the new entry: at the back, or right after the
/// current entry ("play now").
#[derive(Clone, Copy, Debug, PartialEq, Eq, Structural)]
pub enum EnqueueMode {
    Back,
    Front,
}

/// What a completion event did to the queue.
#[derive(Clone, Copy, Debug, PartialEq, Eq, Structural)]
pub enum CompletionOutcome {
    /// The event was for an earlier generation or an idle queue; nothing moved.
    Stale,
    /// The finished entry left the queue and the next one is current.
    Advanced,
    /// The finished entry was the last; the queue stopped.
    Drained,
}

/// Mathematical model of a playback queue: the ordered entries, the cursor
/// of the currently streaming entry, the playback state, and the generation
/// counter that guards against stale completion events.
#[verifier::ext_equal]
pub struct QueueModel {
    pub entries: Seq<TrackModel>,
    pub cursor: Option<int>,
    pub play: PlayState,
    pub generation: u64,
}

/// The generation counter after a `stop`, wrapping at the type's end.
pub open spec fn next_generation(g: u64) -> u64 {
    if g == u64::MAX {
        0
    } else {
        (g + 1) as u64
    }
}

impl QueueModel {
    /// The queue invariant: the cursor is in bounds exactly while the queue
    /// is not stopped.
    pub open spec fn wf(self) -> bool {
        match self.cursor {
            None => self.play == PlayState::Stopped,
            Some(k) => 0 <= k < self.entries.len() && self.play != PlayState::Stopped,
        }
    }

    /// A fresh queue: empty, stopped, at generation zero.
    pub open spec fn init() -> QueueModel {
        QueueModel { entries: Seq::empty(), cursor: None, play: PlayState::Stopped, generation: 0 }
    }

    /// The queue after enqueueing one entry. On a stopped queue the new entry
    /// becomes current and playback starts; otherwise `Back` appends and
    /// `Front` inserts right after the current entry.
    pub open spec fn enqueued(self, t: TrackModel, mode: EnqueueMode) -> QueueModel {
        match self.cursor {
            None => QueueModel {
                entries: self.entries.push(t),
                cursor: Some(self.entries.len() as int),
                play: PlayState::Playing,
                generation: self.generation,
            },
            Some(k) => match mode {
                EnqueueMode::Back => QueueModel { entries: self.entries.push(t), ..self },
                EnqueueMode::Front => QueueModel {
                    entries: self.entries.insert(k + 1, t),
                    ..self
                },
            },
        }
    }

    /// The 1-indexed display position the enqueued entry lands at.
    pub open spec fn enqueue_position(self, mode: EnqueueMode) -> int {
        match self.cursor {
            None => self.entries.len() as int + 1,
            Some(k) => match mode {
                EnqueueMode::Back => self.entries.len() as int + 1,
                EnqueueMode::Front => k + 2,
            },
        }
    }

    /// The queue after a completion event of generation `gen` settles: a
    /// stale generation or an idle queue changes nothing; otherwise the
    /// current entry leaves and its successor becomes current, or the queue
    /// stops when none remains.
    pub open spec fn completed(self, gen: u64) -> QueueModel {
        if self.generation != gen {
            self
        } else {
            match self.cursor {
                None => self,
                Some(k) => {
                    let e = self.entries.remove(k);
                    if k < e.len() {
                        QueueModel {
                            entries: e,
                            cursor: Some(k),
                            play: PlayState::Playing,
                            generation: self.generation,
                        }
                    } else {
                        QueueModel {
                            entries: e,
                            cursor: None,
                            play: PlayState::Stopped,
                            generation: self.generation,
                        }
                    }
                },
            }
        }
    }

    /// The queue after `pause`: only a playing queue changes.
    pub open spec fn paused(self) -> QueueModel {
        if self.play == PlayState::Playing {
            QueueModel { play: PlayState::Paused, ..self }
        } else {
            self
        }
    }

    /// The queue after `resume`: only a paused queue changes.
    pub open spec fn resumed(self) -> QueueModel {
        if self.play == PlayState::Paused {
            QueueModel { play: PlayState::Playing, ..self }
        } else {
            self
        }
    }

    /// The queue after `stop`: cleared, idle, and one generation further, so
    /// that a completion event of the old generation is recognised as stale.
    pub open spec fn halted(self) -> QueueModel {
        QueueModel {
            entries: Seq::empty(),
            cursor: None,
            play: PlayState::Stopped,
            generation: next_generation(self.generation),
        }
    }

    /// Whether `remove(position)` succeeds: the 1-indexed position names an
    /// entry other than the current one.
    pub open spec fn remove_ok(self, position: int) -> bool {
        1 <= position <= self.entries.len() && self.cursor != Some(position - 1)
    }

    /// The queue after a successful `remove(position)`; a cursor behind the
    /// removed entry slides one slot down.
    pub open spec fn removed(self, position: int) -> QueueModel {
        QueueModel {
            entries: self.entries.remove(position - 1),
            cursor: match self.cursor {
                Some(k) => if position - 1 < k {
                    Some(k - 1)
                } else {
                    Some(k)
                },
                None => None,
            },
            ..self
        }
    }

    /// The queue after enqueueing a whole sequence at the back, first first.
    pub open spec fn enqueued_all(self, ts: Seq<TrackModel>) -> QueueModel
        decreases ts.len(),
    {
        if ts.len() == 0 {
            self
        } else {
            self.enqueued(ts[0], EnqueueMode::Back).enqueued_all(ts.drop_first())
        }
    }

    /// Enqueueing a sequence and then one more entry is enqueueing the
    /// extended sequence.
    pub proof fn lemma_enqueued_all_push(m: QueueModel, ts: Seq<TrackModel>, t: TrackModel)
        ensures
            m.enqueued_all(ts.push(t)) == m.enqueued_all(ts).enqueued(t, EnqueueMode::Back),
        decreases ts.len(),
    {
        let e = ts.push(t);
        assert(m.enqueued_all(e) == m.enqueued(e[0], EnqueueMode::Back).enqueued_all(
            e.drop_first(),
        ));
        if ts.len() == 0 {
            assert(e[0] == t);
            assert(e.drop_first() =~= ts);
            assert(m.enqueued(t, EnqueueMode::Back).enqueued_all(ts) == m.enqueued(
                t,
                EnqueueMode::Back,
            ));
            assert(m.enqueued_all(ts) == m);
        } else {
            assert(e[0] == ts[0]);
            assert(e.drop_first() =~= ts.drop_first().push(t));
            Self::lemma_enqueued_all_push(m.enqueued(ts[0], EnqueueMode::Back), ts.drop_first(), t);
            assert(m.enqueued_all(ts) == m.enqueued(ts[0], EnqueueMode::Back).enqueued_all(
                ts.drop_first(),
            ));
        }
    }

    /// The queue after the run of failed entries at the cursor is skipped
    /// over: playback lands on the next entry that did not fail, or stops
    /// when only failed entries remained.
    pub open spec fn advanced(self) -> QueueModel {
        match self.cursor {
            None => self,
            Some(k) => {
                let r = failed_prefix_len(self.entries.skip(k));
                if r == 0 {
                    self
                } else {
                    let e = self.entries.subrange(0, k) + self.entries.skip(k + r);
                    if k < e.len() {
                        QueueModel {
                            entries: e,
                            cursor: Some(k),
                            play: PlayState::Playing,
                            generation: self.generation,
                        }
                    } else {
                        QueueModel {
                            entries: e,
                            cursor: None,
                            play: PlayState::Stopped,
                            generation: self.generation,
                        }
                    }
                }
            },
        }
    }

    /// The display part of the model: what a snapshot keeps.
    pub open spec fn snap(self) -> SnapshotModel {
        SnapshotModel { entries: self.entries, cursor: self.cursor, play: self.play }
    }
}

/// Mathematical model of a queue snapshot.
#[verifier::ext_equal]
pub struct SnapshotModel {
    pub entries: Seq<TrackModel>,
    pub cursor: Option<int>,
    pub play: PlayState,
}

/// An immutable point-in-time copy of a queue, for display.
pub struct QueueSnapshot {
    pub entries: Vec<TrackDescriptor>,
    pub cursor: Option<usize>,
    pub play: PlayState,
}

impl View for QueueSnapshot {
    type V = SnapshotModel;

    open spec fn view(&self) -> SnapshotModel {
        SnapshotModel {
            entries: views_of(self.entries@),
            cursor: match self.cursor {
                Some(k) => Some(k as int),
                None => None,
            },
            play: self.play,
        }
    }
}

/// How many display pages a queue of `n_entries` entries has, at ten
/// upcoming entries per page.
pub open spec fn page_count_of(n_entries: int) -> int {
    (n_entries + 9) / 10
}

/// Whether `page` (1-indexed) starts within the `upcoming` entries that
/// follow the current one.
pub open spec fn page_ok(upcoming: int, page: int) -> bool {
    page >= 1 && 10 * (page - 1) <= upcoming
}

/// One display page: the current entry, up to ten of the entries after it,
/// and where they stand.
#[derive(Debug, PartialEq, Eq)]
pub struct QueuePage {
    /// The entry at the cursor.
    pub now_playing: TrackDescriptor,
    /// At most ten entries of this page, in queue order.
    pub upcoming: Vec<TrackDescriptor>,
    /// Display position of the first upcoming entry on this page, counted
    /// from the entry after the current one as 1.
    pub first_position: usize,
    /// The requested page, 1-indexed.
    pub page: usize,
    /// Total pages for this queue.
    pub page_count: usize,
}

/// What a queue display request comes back with.
#[derive(Debug, PartialEq, Eq)]
pub enum QueueViewReply {
    /// Nothing is playing.
    Empty,
    /// One page of the queue.
    Page(QueuePage),
}

impl QueueSnapshot {
    /// The snapshot invariant a snapshot of a well-formed queue meets.
    pub open spec fn wf(self) -> bool {
        match self@.cursor {
            None => true,
            Some(k) => 0 <= k < self@.entries.len(),
        }
    }

    /// Lays out one display page: the current entry plus the requested ten
    /// of the entries after it. A queue with nothing playing shows as
    /// `Empty`; a page past the upcoming entries is `OutOfRange`. The
    /// snapshot itself is untouched, so two snapshots around a display call
    /// are equal.
    pub fn view_page(&self, page: usize) -> (r: Result<QueueViewReply, CommandError>)
        requires
            self.wf(),
            self@.entries.len() + 9 < usize::MAX,
        ensures
            match self@.cursor {
                None => r == Result::<QueueViewReply, CommandError>::Ok(QueueViewReply::Empty),
                Some(k) => {
                    let up = self@.entries.len() - k - 1;
                    if !page_ok(up, page as int) {
                        r == Result::<QueueViewReply, CommandError>::Err(CommandError::OutOfRange)
                    } else {
                        let start = k + 1 + 10 * (page - 1);
                        let end = if start + 10 <= self@.entries.len() {
                            start + 10
                        } else {
                            self@.entries.len() as int
                        };
                        match r {
                            Ok(QueueViewReply::Page(p)) => p.now_playing@ == self@.entries[k]
                                && views_of(p.upcoming@) == self@.entries.subrange(start, end)
                                && p.first_position == 1 + 10 * (page - 1) && p.page == page
                                && p.page_count == page_count_of(self@.entries.len() as int),
                            _ => false,
                        }
                    }
                },
            },
    {
        let k = match self.cursor {
            None => {
                return Ok(QueueViewReply::Empty);
            },
            Some(k) => k,
        };
        if page == 0 {
            return Err(CommandError::OutOfRange);
        }
        let upcoming_count = self.entries.len() - k - 1;
        if page - 1 > upcoming_count / 10 {
            proof {
                let up = upcoming_count as int;
                assert(10 * (up / 10) <= up < 10 * (up / 10) + 10) by (nonlinear_arith);
                assert(10 * (page - 1) >= 10 * (up / 10 + 1)) by (nonlinear_arith)
                    requires
                        page - 1 > up / 10,
                ;
            }
            return Err(CommandError::OutOfRange);
        }
        proof {
            let up = upcoming_count as int;
            assert(10 * (up / 10) <= up < 10 * (up / 10) + 10) by (nonlinear_arith);
            assert(10 * (page - 1) <= 10 * (up / 10)) by (nonlinear_arith)
                requires
                    page - 1 <= up / 10,
            ;
        }
        let off = (page - 1) * 10;
        let start = k + 1 + off;
        let end = if self.entries.len() - start > 10 {
            start + 10
        } else {
            self.entries.len()
        };
        let upcoming = clone_range(&self.entries, start, end);
        let now_playing = self.entries[k].clone();
        let pcount = (self.entries.len() + 9) / 10;
        Ok(
            QueueViewReply::Page(
                QueuePage { now_playing, upcoming, first_position: 1 + off, page, page_count: pcount },
            ),
        )
    }
}

/// Whether this descriptor's resolution failed.
fn is_failed(t: &TrackDescriptor) -> (b: bool)
    ensures
        b == (t@.state is Failed),
{
    matches!(t.state, ResolutionState::Failed(_))
}

/// Copies the descriptors at indices `from..to`, keeping each one's model.
fn clone_range(v: &Vec<TrackDescriptor>, from: usize, to: usize) -> (r: Vec<TrackDescriptor>)
    requires
        from <= to <= v@.len(),
    ensures
        views_of(r@) == views_of(v@).subrange(from as int, to as int),
{
    let mut r: Vec<TrackDescriptor> = Vec::new();
    let mut i: usize = from;
    while i < to
        invariant
            from <= i <= to <= v@.len(),
            r@.len() == i - from,
            forall|j: int| 0 <= j < r@.len() ==> #[trigger] r@[j]@ == v@[from + j]@,
        decreases to - i,
    {
        r.push(v[i].clone());
        i += 1;
    }
    proof {
        assert forall|j: int| 0 <= j < r@.len() implies views_of(r@)[j] == views_of(v@).subrange(
            from as int,
            to as int,
        )[j] by {
            assert(r@[j]@ == v@[from + j]@);
        }
        assert(views_of(r@) =~= views_of(v@).subrange(from as int, to as int));
    }
    r
}

/// Copies a vector of descriptors, keeping each one's model.
fn clone_tracks(v: &Vec<TrackDescriptor>) -> (r: Vec<TrackDescriptor>)
    ensures
        views_of(r@) == views_of(v@),
{
    let r = clone_range(v, 0, v.len());
    proof {
        assert(views_of(v@).subrange(0, v@.len() as int) =~= views_of(v@));
    }
    r
}

/// Per-session ordered queue of track descriptors with a single playback
/// cursor. All mutating operations go through the owning session's exclusive
/// lock; the asynchronous completion event re-enters as [`PlaybackQueue::on_track_complete`].
pub struct PlaybackQueue {
    entries: Vec<TrackDescriptor>,
    cursor: Option<usize>,
    play: PlayState,
    generation: u64,
}

impl View for PlaybackQueue {
    type V = QueueModel;

    closed spec fn view(&self) -> QueueModel {
        QueueModel {
            entries: views_of(self.entries@),
            cursor: match self.cursor {
                Some(k) => Some(k as int),
                None => None,
            },
            play: self.play,
            generation: self.generation,
        }
    }
}

impl PlaybackQueue {
    pub open spec fn wf(self) -> bool {
        self@.wf()
    }

    /// Creates the empty, stopped queue a new session starts with.
    pub fn new() -> (q: PlaybackQueue)
        ensures
            q@ == QueueModel::init(),
            q.wf(),
    {
        let q = PlaybackQueue {
            entries: Vec::new(),
            cursor: None,
            play: PlayState::Stopped,
            generation: 0,
        };
        proof {
            assert(q@ =~= QueueModel::init());
        }
        q
    }

    /// Appends (`Back`) or front-inserts (`Front`) a descriptor. Returns its
    /// 1-indexed display position and whether playback just started, in
    /// which case the caller should hand the new current entry to the voice
    /// transport.
    pub fn enqueue(&mut self, track: TrackDescriptor, mode: EnqueueMode) -> (r: (usize, bool))
        requires
            old(self).wf(),
            old(self)@.entries.len() < usize::MAX,
        ensures
            final(self).wf(),
            final(self)@ == old(self)@.enqueued(track@, mode),
            r.0 == old(self)@.enqueue_position(mode),
            r.1 == (old(self)@.cursor is None),
    {
        match self.cursor {
            None => {
                self.entries.push(track);
                self.cursor = Some(self.entries.len() - 1);
                self.play = PlayState::Playing;
                proof {
                    assert(self@.entries =~= old(self)@.entries.push(track@));
                    assert(self@ =~= old(self)@.enqueued(track@, mode));
                }
                (self.entries.len(), true)
            },
            Some(k) => {
                match mode {
                    EnqueueMode::Back => {
                        self.entries.push(track);
                        proof {
                            assert(self@.entries =~= old(self)@.entries.push(track@));
                            assert(self@ =~= old(self)@.enqueued(track@, mode));
                        }
                        (self.entries.len(), false)
                    },
                    EnqueueMode::Front => {
                        self.entries.insert(k + 1, track);
                        proof {
                            assert(self@.entries =~= old(self)@.entries.insert(
                                k + 1,
                                track@,
                            ));
                            assert(self@ =~= old(self)@.enqueued(track@, mode));
                        }
                        (k + 2, false)
                    },
                }
            },
        }
    }

    /// Whether a `skip` should signal the voice transport to stop the
    /// current stream. The queue itself only changes once the resulting
    /// completion event arrives.
    pub fn skip(&self) -> (signal: bool)
        ensures
            signal == (self@.play != PlayState::Stopped),
    {
        !matches!(self.play, PlayState::Stopped)
    }

    /// Settles a completion event carrying the generation the finished
    /// stream was started under.
    pub fn on_track_complete(&mut self, gen: u64) -> (r: CompletionOutcome)
        requires
            old(self).wf(),
        ensures
            final(self).wf(),
            final(self)@ == old(self)@.completed(gen),
            r == CompletionOutcome::Stale <==> (old(self)@.generation != gen || old(
                self,
            )@.cursor is None),
            r == CompletionOutcome::Advanced <==> (old(self)@.generation == gen && match old(
                self,
            )@.cursor {
                Some(k) => k < old(self)@.entries.len() - 1,
                None => false,
            }),
    {
        if gen != self.generation {
            return CompletionOutcome::Stale;
        }
        match self.cursor {
            None => CompletionOutcome::Stale,
            Some(k) => {
                let _finished = self.entries.remove(k);
                proof {
                    assert(self@.entries =~= old(self)@.entries.remove(k as int));
                }
                if k < self.entries.len() {
                    self.play = PlayState::Playing;
                    proof {
                        assert(self@ =~= old(self)@.completed(gen));
                    }
                    CompletionOutcome::Advanced
                } else {
                    self.cursor = None;
                    self.play = PlayState::Stopped;
                    proof {
                        assert(self@ =~= old(self)@.completed(gen));
                    }
                    CompletionOutcome::Drained
                }
            },
        }
    }

    /// Pauses a playing queue; entries and cursor are untouched. Returns
    /// whether anything changed.
    pub fn pause(&mut self) -> (changed: bool)
        requires
            old(self).wf(),
        ensures
            final(self).wf(),
            final(self)@ == old(self)@.paused(),
            changed == (old(self)@.play == PlayState::Playing),
    {
        if matches!(self.play, PlayState::Playing) {
            self.play = PlayState::Paused;
            proof {
                assert(self@ =~= old(self)@.paused());
            }
            true
        } else {
            proof {
                assert(self@ =~= old(self)@.paused());
            }
            false
        }
    }

    /// Resumes a paused queue; entries and cursor are untouched. Returns
    /// whether anything changed.
    pub fn resume(&mut self) -> (changed: bool)
        requires
            old(self).wf(),
        ensures
            final(self).wf(),
            final(self)@ == old(self)@.resumed(),
            changed == (old(self)@.play == PlayState::Paused),
    {
        if matches!(self.play, PlayState::Paused) {
            self.play = PlayState::Playing;
            proof {
                assert(self@ =~= old(self)@.resumed());
            }
            true
        } else {
            proof {
                assert(self@ =~= old(self)@.resumed());
            }
            false
        }
    }

    /// Clears the queue and stops playback; the caller should halt the voice
    /// transport. The generation moves on, so a completion event from the
    /// just-stopped stream is settled as stale.
    pub fn stop(&mut self)
        ensures
            final(self).wf(),
            final(self)@ == old(self)@.halted(),
    {
        self.entries.clear();
        self.cursor = None;
        self.play = PlayState::Stopped;
        self.generation = if self.generation == u64::MAX {
            0
        } else {
            self.generation + 1
        };
        proof {
            assert(self@ =~= old(self)@.halted());
        }
    }

    /// Removes the entry at a 1-indexed display position, refusing the
    /// currently streaming entry (`LiveEntry`: use skip) and positions that
    /// name no entry (`OutOfRange`).
    pub fn remove(&mut self, position: usize) -> (r: Result<TrackDescriptor, CommandError>)
        requires
            old(self).wf(),
        ensures
            final(self).wf(),
            r is Ok <==> old(self)@.remove_ok(position as int),
            r is Ok ==> final(self)@ == old(self)@.removed(position as int) && r->Ok_0@ == old(
                self,
            )@.entries[position - 1],
            r is Err ==> final(self)@ == old(self)@ && (r->Err_0 == if !(1 <= position
                <= old(self)@.entries.len()) {
                CommandError::OutOfRange
            } else {
                CommandError::LiveEntry
            }),
    {
        if position == 0 || position > self.entries.len() {
            return Err(CommandError::OutOfRange);
        }
        let live = match self.cursor {
            Some(k) => k == position - 1,
            None => false,
        };
        if live {
            return Err(CommandError::LiveEntry);
        }
        let taken = self.entries.remove(position - 1);
        match self.cursor {
            Some(k) => {
                if position - 1 < k {
                    self.cursor = Some(k - 1);
                }
            },
            None => {},
        }
        proof {
            assert(self@.entries =~= old(self)@.entries.remove(position - 1));
            assert(self@ =~= old(self)@.removed(position as int));
        }
        Ok(taken)
    }

    /// Decides a `seek` request: the offset in seconds is forwarded to the
    /// voice transport only while an entry is current.
    pub fn seek(&self, offset_secs: u64) -> (r: Result<u64, CommandError>)
        ensures
            r == if self@.cursor is Some {
                Result::<u64, CommandError>::Ok(offset_secs)
            } else {
                Result::<u64, CommandError>::Err(CommandError::NotPlaying)
            },
    {
        match self.cursor {
            Some(_) => Ok(offset_secs),
            None => Err(CommandError::NotPlaying),
        }
    }

    /// Number of entries, the current one included.
    pub fn len(&self) -> (n: usize)
        ensures
            n == self@.entries.len(),
    {
        self.entries.len()
    }

    /// The generation the next started stream should be tagged with.
    pub fn generation(&self) -> (g: u64)
        ensures
            g == self@.generation,
    {
        self.generation
    }

    /// Enqueues every descriptor at the back, in order. Returns whether
    /// playback just started, in which case the caller should hand the new
    /// current entry to the voice transport.
    pub fn enqueue_many(&mut self, tracks: Vec<TrackDescriptor>) -> (started: bool)
        requires
            old(self).wf(),
            old(self)@.entries.len() + tracks@.len() <= usize::MAX,
        ensures
            final(self).wf(),
            final(self)@ == old(self)@.enqueued_all(views_of(tracks@)),
            started == (old(self)@.cursor is None && tracks@.len() > 0),
    {
        let ghost ts = views_of(tracks@);
        let was_idle = matches!(self.cursor, None);
        let mut i: usize = 0;
        while i < tracks.len()
            invariant
                i <= tracks@.len(),
                ts == views_of(tracks@),
                old(self)@.wf(),
                old(self)@.entries.len() + tracks@.len() <= usize::MAX,
                self.wf(),
                self@ == old(self)@.enqueued_all(ts.take(i as int)),
                self@.entries.len() == old(self)@.entries.len() + i,
            decreases tracks@.len() - i,
        {
            let t = tracks[i].clone();
            self.enqueue(t, EnqueueMode::Back);
            i += 1;
            proof {
                assert(ts.take(i - 1).push(t@) =~= ts.take(i as int));
                QueueModel::lemma_enqueued_all_push(old(self)@, ts.take(i - 1), t@);
            }
        }
        proof {
            assert(ts.take(tracks@.len() as int) =~= ts);
        }
        was_idle && tracks.len() > 0
    }

    /// Removes the run of failed entries at the cursor, so that playback
    /// lands on the next entry whose resolution did not fail, or stops when
    /// only failed entries remained. Returns the removed entries so the
    /// caller can report each failure.
    pub fn advance_past_failed(&mut self) -> (skipped: Vec<TrackDescriptor>)
        requires
            old(self).wf(),
        ensures
            final(self).wf(),
            final(self)@ == old(self)@.advanced(),
            views_of(skipped@) == (match old(self)@.cursor {
                Some(k) => old(self)@.entries.subrange(
                    k,
                    k + failed_prefix_len(old(self)@.entries.skip(k)),
                ),
                None => Seq::<TrackModel>::empty(),
            }),
    {
        let mut skipped: Vec<TrackDescriptor> = Vec::new();
        let k = match self.cursor {
            Some(k) => k,
            None => {
                proof {
                    assert(views_of(skipped@) =~= Seq::<TrackModel>::empty());
                }
                return skipped;
            },
        };
        let ghost m0 = self@;
        while k < self.entries.len() && is_failed(&self.entries[k])
            invariant
                m0.wf(),
                m0.cursor == Some(k as int),
                self.cursor == Some(k),
                self@.play == m0.play,
                self@.generation == m0.generation,
                skipped@.len() <= m0.entries.len() - k,
                self.entries@.len() == m0.entries.len() - skipped@.len(),
                forall|j: int|
                    0 <= j < skipped@.len() ==> #[trigger] skipped@[j]@ == m0.entries[k + j],
                forall|j: int|
                    0 <= j < skipped@.len() ==> (#[trigger] m0.entries[k + j].state) is Failed,
                forall|j: int| 0 <= j < k ==> #[trigger] self.entries@[j]@ == m0.entries[j],
                forall|j: int|
                    k <= j < self.entries@.len() ==> #[trigger] self.entries@[j]@ == m0.entries[j
                        + skipped@.len()],
            decreases self.entries@.len() - k,
        {
            let t = self.entries.remove(k);
            skipped.push(t);
        }
        proof {
            let c = skipped@.len() as int;
            let s = m0.entries.skip(k as int);
            assert forall|j: int| 0 <= j < c implies s[j].state is Failed by {
                assert(s[j] == m0.entries[k + j]);
            }
            if c < s.len() {
                assert(self.entries@[k as int]@ == m0.entries[k + c]);
                assert(s[c] == m0.entries[k + c]);
            }
            lemma_failed_prefix_eq(s, c);
            assert forall|j: int| 0 <= j < c implies views_of(skipped@)[j] == m0.entries.subrange(
                k as int,
                k + c,
            )[j] by {
                assert(skipped@[j]@ == m0.entries[k + j]);
            }
            assert(views_of(skipped@) =~= m0.entries.subrange(k as int, k + c));
        }
        let changed = skipped.len() > 0;
        if changed {
            if k < self.entries.len() {
                self.play = PlayState::Playing;
            } else {
                self.cursor = None;
                self.play = PlayState::Stopped;
            }
        }
        proof {
            let c = skipped@.len() as int;
            let e = m0.entries.subrange(0, k as int) + m0.entries.skip(k + c);
            assert forall|j: int| 0 <= j < e.len() implies self@.entries[j] == e[j] by {
                if j < k {
                    assert(self.entries@[j]@ == m0.entries[j]);
                } else {
                    assert(self.entries@[j]@ == m0.entries[j + c]);
                    assert(e[j] == m0.entries.skip(k + c)[j - k]);
                }
            }
            assert(self@.entries =~= e);
            assert(self@ =~= m0.advanced());
        }
        skipped
    }

    /// Records the outcome of resolving the entry at `index` (0-indexed):
    /// on success the metadata fills in and the entry becomes `Ready`, on
    /// failure it keeps its fields and becomes `Failed` with the reason.
    /// An index past the entries (the entry was removed meanwhile) changes
    /// nothing.
    pub fn apply_resolution(&mut self, index: usize, outcome: Result<TrackMeta, String>) -> (applied:
        bool)
        requires
            old(self).wf(),
        ensures
            final(self).wf(),
            applied == (index < old(self)@.entries.len()),
            applied ==> final(self)@ == (QueueModel {
                entries: old(self)@.entries.update(
                    index as int,
                    (match outcome {
                        Ok(meta) => resolved_model(old(self)@.entries[index as int].url, meta@),
                        Err(reason) => failed_model(old(self)@.entries[index as int], reason@),
                    }),
                ),
                ..old(self)@
            }),
            !applied ==> final(self)@ == old(self)@,
    {
        if index >= self.entries.len() {
            return false;
        }
        let prior = self.entries.remove(index);
        let next = match outcome {
            Ok(meta) => TrackDescriptor {
                source_url: prior.source_url,
                title: meta.title,
                duration_secs: meta.duration_secs,
                thumbnail: meta.thumbnail,
                state: ResolutionState::Ready,
            },
            Err(reason) => TrackDescriptor { state: ResolutionState::Failed(reason), ..prior },
        };
        self.entries.insert(index, next);
        proof {
            assert(self@.entries =~= old(self)@.entries.update(index as int, next@));
            assert(self@ =~= (QueueModel {
                entries: old(self)@.entries.update(index as int, next@),
                ..old(self)@
            }));
        }
        true
    }

    /// A point-in-time copy of the entries, cursor and playback state, for
    /// display; the queue itself is untouched.
    pub fn snapshot(&self) -> (s: QueueSnapshot)
        ensures
            s@ == self@.snap(),
    {
        let entries = clone_tracks(&self.entries);
        let s = QueueSnapshot { entries, cursor: self.cursor, play: self.play };
        proof {
            assert(s@ =~= self@.snap());
        }
        s
    }

    /// A copy of the current entry, if one is streaming.
    pub fn current(&self) -> (r: Option<TrackDescriptor>)
        requires
            self.wf(),
        ensures
            match r {
                Some(t) => self@.cursor is Some && t@ == self@.entries[self@.cursor->0],
                None => self@.cursor is None,
            },
    {
        match self.cursor {
            Some(k) => Some(self.entries[k].clone()),
            None => None,
        }
    }
}

} // verus!
