use vstd::prelude::*;

use crate::errors::CommandError;
use crate::queue::{
    failed_prefix_len, page_count_of, page_ok, views_of, CompletionOutcome, EnqueueMode,
    PlayState, PlaybackQueue, QueueModel, QueueSnapshot, QueueViewReply,
};
use crate::resolver::{
    has_list_marker, is_valid_playlist_url, is_valid_track_url, outcome_model, pending_all,
    pending_tracks, playlist_window, starts_with_http, str_views, track_from_outcome, window_of,
};
use crate::track::{pending_model, TrackDescriptor, TrackMeta, TrackModel};

verus! {

/// The live association between one guild's voice channel and its playback
/// queue. The voice connection itself is an external resource the caller
/// holds; this is the state behind it.
pub struct Session {
    pub guild_id: u64,
    pub deaf: bool,
    pub queue: PlaybackQueue,
}

/// Mathematical model of a session.
#[verifier::ext_equal]
pub struct SessionModel {
    pub guild_id: u64,
    pub deaf: bool,
    pub queue: QueueModel,
}

impl View for Session {
    type V = SessionModel;

    open spec fn view(&self) -> SessionModel {
        SessionModel { guild_id: self.guild_id, deaf: self.deaf, queue: self.queue@ }
    }
}

/// The models of a sequence of sessions, in order.
pub open spec fn session_views(s: Seq<Session>) -> Seq<SessionModel> {
    s.map_values(|x: Session| x@)
}

/// The registry invariant: at most one session per guild, and every queue
/// well-formed.
pub open spec fn registry_wf(s: Seq<SessionModel>) -> bool {
    (forall|i: int, j: int|
        0 <= i < j < s.len() ==> (#[trigger] s[i]).guild_id != (#[trigger] s[j]).guild_id)
        && (forall|i: int| 0 <= i < s.len() ==> (#[trigger] s[i]).queue.wf())
}

/// Whether some session belongs to `g`.
pub open spec fn has_guild(s: Seq<SessionModel>, g: u64) -> bool {
    exists|i: int| 0 <= i < s.len() && (#[trigger] s[i]).guild_id == g
}

/// The index of the session that belongs to `g`; meaningful when
/// `has_guild(s, g)` holds, and then unique under `registry_wf`.
pub open spec fn guild_index(s: Seq<SessionModel>, g: u64) -> int {
    choose|i: int| 0 <= i < s.len() && (#[trigger] s[i]).guild_id == g
}

/// The registry with the queue of the session at `i` replaced.
pub open spec fn with_queue(s: Seq<SessionModel>, i: int, q: QueueModel) -> Seq<SessionModel> {
    s.update(i, SessionModel { queue: q, ..s[i] })
}

/// The queue of the session that belongs to `g`; meaningful when
/// `has_guild(s, g)` holds.
pub open spec fn queue_at(s: Seq<SessionModel>, g: u64) -> QueueModel {
    s[guild_index(s, g)].queue
}

/// Replacing a session by one with the same guild and a well-formed queue
/// keeps the registry invariant.
proof fn lemma_registry_update(s: Seq<SessionModel>, i: int, elem: SessionModel)
    requires
        registry_wf(s),
        0 <= i < s.len(),
        elem.guild_id == s[i].guild_id,
        elem.queue.wf(),
    ensures
        registry_wf(s.update(i, elem)),
{
    let t = s.update(i, elem);
    assert forall|a: int, b: int| 0 <= a < b < t.len() implies (#[trigger] t[a]).guild_id != (
    #[trigger] t[b]).guild_id by {
        assert(s[a].guild_id != s[b].guild_id);
    }
    assert forall|a: int| 0 <= a < t.len() implies (#[trigger] t[a]).queue.wf() by {
        if a != i {
            assert(s[a].queue.wf());
        }
    }
}

/// Removing a session keeps the registry invariant.
proof fn lemma_registry_remove(s: Seq<SessionModel>, i: int)
    requires
        registry_wf(s),
        0 <= i < s.len(),
    ensures
        registry_wf(s.remove(i)),
{
    let t = s.remove(i);
    assert forall|a: int, b: int| 0 <= a < b < t.len() implies (#[trigger] t[a]).guild_id != (
    #[trigger] t[b]).guild_id by {
        let a0 = if a < i {
            a
        } else {
            a + 1
        };
        let b0 = if b < i {
            b
        } else {
            b + 1
        };
        assert(t[a] == s[a0] && t[b] == s[b0]);
        assert(s[a0].guild_id != s[b0].guild_id);
    }
    assert forall|a: int| 0 <= a < t.len() implies (#[trigger] t[a]).queue.wf() by {
        let a0 = if a < i {
            a
        } else {
            a + 1
        };
        assert(t[a] == s[a0]);
        assert(s[a0].queue.wf());
    }
}

/// What a join request should do next.
#[derive(Clone, Copy, Debug, PartialEq, Eq, Structural)]
pub enum JoinPlan {
    /// A session already exists; joining again is a no-op.
    AlreadyConnected,
    /// No session yet: connect the voice transport to this channel, then
    /// report the outcome through `join_complete`.
    Connect(u64),
}

/// What a successful `play` reports back.
#[derive(Clone, Copy, Debug, PartialEq, Eq, Structural)]
pub struct PlayOutcome {
    /// 1-indexed display position the entry landed at.
    pub position: usize,
    /// Whether playback just started, so the caller must hand the current
    /// entry to the voice transport.
    pub started: bool,
}

/// What a successful `playlist` reports back.
#[derive(Clone, Copy, Debug, PartialEq, Eq, Structural)]
pub struct PlaylistOutcome {
    /// How many members were queued.
    pub queued: usize,
    /// Queue length afterwards.
    pub total: usize,
    /// Whether playback just started.
    pub started: bool,
}

/// Owns every live session, keyed by guild: the only cross-session shared
/// structure. Each operation is guild-scoped; callers serialise operations
/// on one guild through their lock around this registry.
pub struct SessionManager {
    sessions: Vec<Session>,
}

impl View for SessionManager {
    type V = Seq<SessionModel>;

    closed spec fn view(&self) -> Seq<SessionModel> {
        session_views(self.sessions@)
    }
}

impl SessionManager {
    pub open spec fn wf(self) -> bool {
        registry_wf(self@)
    }

    /// An empty registry.
    pub fn new() -> (m: SessionManager)
        ensures
            m@ == Seq::<SessionModel>::empty(),
            m.wf(),
    {
        let m = SessionManager { sessions: Vec::new() };
        proof {
            assert(m@ =~= Seq::<SessionModel>::empty());
        }
        m
    }

    /// The index of the guild's session, if any.
    fn find(&self, guild_id: u64) -> (r: Option<usize>)
        requires
            self.wf(),
        ensures
            match r {
                Some(i) => has_guild(self@, guild_id) && i < self@.len() && self@[i as int].guild_id
                    == guild_id && i as int == guild_index(self@, guild_id),
                None => !has_guild(self@, guild_id),
            },
    {
        let mut i: usize = 0;
        while i < self.sessions.len()
            invariant
                self.wf(),
                i <= self@.len(),
                forall|j: int| 0 <= j < i ==> (#[trigger] self@[j]).guild_id != guild_id,
            decreases self@.len() - i,
        {
            if self.sessions[i].guild_id == guild_id {
                proof {
                    assert(self@[i as int].guild_id == guild_id);
                    let ci = guild_index(self@, guild_id);
                    assert(0 <= ci < self@.len() && self@[ci].guild_id == guild_id);
                    if ci < i as int {
                        assert(self@[ci].guild_id != self@[i as int].guild_id);
                    } else if ci > i as int {
                        assert(self@[i as int].guild_id != self@[ci].guild_id);
                    }
                }
                return Some(i);
            }
            i += 1;
        }
        None
    }

    /// Whether the guild has a live session.
    pub fn has_session(&self, guild_id: u64) -> (r: bool)
        requires
            self.wf(),
        ensures
            r == has_guild(self@, guild_id),
    {
        self.find(guild_id).is_some()
    }

    /// Decides a join: a caller outside any voice channel is refused, a
    /// guild with a session needs nothing, and otherwise the voice
    /// transport should be connected to the caller's channel.
    pub fn join_request(&self, guild_id: u64, voice_channel: Option<u64>) -> (r: Result<
        JoinPlan,
        CommandError,
    >)
        requires
            self.wf(),
        ensures
            r == (match voice_channel {
                None => Result::<JoinPlan, CommandError>::Err(CommandError::NotInVoiceChannel),
                Some(c) => if has_guild(self@, guild_id) {
                    Result::<JoinPlan, CommandError>::Ok(JoinPlan::AlreadyConnected)
                } else {
                    Result::<JoinPlan, CommandError>::Ok(JoinPlan::Connect(c))
                },
            }),
    {
        let channel = match voice_channel {
            None => {
                return Err(CommandError::NotInVoiceChannel);
            },
            Some(c) => c,
        };
        if self.has_session(guild_id) {
            Ok(JoinPlan::AlreadyConnected)
        } else {
            Ok(JoinPlan::Connect(channel))
        }
    }

    /// Registers the session once the voice transport reported on the
    /// connection attempt. A failed connection leaves no session
    /// registered; a guild that already had one keeps it unchanged.
    pub fn join_complete(&mut self, guild_id: u64, connect_ok: bool) -> (r: Result<
        (),
        CommandError,
    >)
        requires
            old(self).wf(),
        ensures
            final(self).wf(),
            has_guild(old(self)@, guild_id) ==> r == Result::<(), CommandError>::Ok(()) && final(self)@ == old(self)@,
            !has_guild(old(self)@, guild_id) && connect_ok ==> r == Result::<(), CommandError>::Ok(
                (),
            ) && final(self)@ == old(self)@.push(
                SessionModel { guild_id, deaf: false, queue: QueueModel::init() },
            ),
            !has_guild(old(self)@, guild_id) && !connect_ok ==> r == Result::<(), CommandError>::Err(
                CommandError::ConnectionError,
            ) && final(self)@ == old(self)@,
    {
        if self.find(guild_id).is_some() {
            return Ok(());
        }
        if !connect_ok {
            return Err(CommandError::ConnectionError);
        }
        let s = Session { guild_id, deaf: false, queue: PlaybackQueue::new() };
        self.sessions.push(s);
        proof {
            assert(self@ =~= old(self)@.push(
                SessionModel { guild_id, deaf: false, queue: QueueModel::init() },
            ));
            let t = self@;
            assert forall|a: int, b: int| 0 <= a < b < t.len() implies (#[trigger] t[a]).guild_id
                != (#[trigger] t[b]).guild_id by {
                if b == t.len() - 1 {
                    assert(t[a] == old(self)@[a]);
                }
            }
            assert forall|a: int| 0 <= a < t.len() implies (#[trigger] t[a]).queue.wf() by {
                if a < t.len() - 1 {
                    assert(old(self)@[a].queue.wf());
                }
            }
        }
        Ok(())
    }

    /// Tears the guild's session down; the caller disconnects the voice
    /// transport. Reports `NoActiveSession` when there is none.
    pub fn leave(&mut self, guild_id: u64) -> (r: Result<(), CommandError>)
        requires
            old(self).wf(),
        ensures
            final(self).wf(),
            !has_guild(old(self)@, guild_id) ==> r == Result::<(), CommandError>::Err(
                CommandError::NoActiveSession,
            ) && final(self)@ == old(self)@,
            has_guild(old(self)@, guild_id) ==> r == Result::<(), CommandError>::Ok(())
                && final(self)@ == old(self)@.remove(guild_index(old(self)@, guild_id)),
    {
        let i = match self.find(guild_id) {
            Some(i) => i,
            None => {
                return Err(CommandError::NoActiveSession);
            },
        };
        let _gone = self.sessions.remove(i);
        proof {
            assert(self@ =~= old(self)@.remove(i as int));
            lemma_registry_remove(old(self)@, i as int);
        }
        Ok(())
    }

    /// Sets the deafened flag, reporting `Ok(false)` when it already had
    /// the requested value.
    pub fn set_deaf(&mut self, guild_id: u64, deaf: bool) -> (r: Result<bool, CommandError>)
        requires
            old(self).wf(),
        ensures
            final(self).wf(),
            !has_guild(old(self)@, guild_id) ==> r == Result::<bool, CommandError>::Err(
                CommandError::NoActiveSession,
            ) && final(self)@ == old(self)@,
            has_guild(old(self)@, guild_id) ==> ({
                let i = guild_index(old(self)@, guild_id);
                if old(self)@[i].deaf == deaf {
                    r == Result::<bool, CommandError>::Ok(false) && final(self)@ == old(self)@
                } else {
                    r == Result::<bool, CommandError>::Ok(true) && final(self)@
                        == old(self)@.update(i, SessionModel { deaf, ..old(self)@[i] })
                }
            }),
    {
        let i = match self.find(guild_id) {
            Some(i) => i,
            None => {
                return Err(CommandError::NoActiveSession);
            },
        };
        let mut s = self.sessions.remove(i);
        if s.deaf == deaf {
            self.sessions.insert(i, s);
            proof {
                assert(self@ =~= old(self)@);
            }
            return Ok(false);
        }
        s.deaf = deaf;
        self.sessions.insert(i, s);
        proof {
            assert(self@ =~= old(self)@.update(
                i as int,
                SessionModel { deaf, ..old(self)@[i as int] },
            ));
            lemma_registry_update(
                old(self)@,
                i as int,
                SessionModel { deaf, ..old(self)@[i as int] },
            );
        }
        Ok(true)
    }

    /// Resolves `url` into a descriptor from the reported outcome and
    /// enqueues it for the guild. A URL that does not start with "http" is
    /// refused before anything else; a failed resolution is still enqueued,
    /// to be skipped when its turn comes.
    pub fn play(
        &mut self,
        guild_id: u64,
        url: String,
        mode: EnqueueMode,
        outcome: Result<TrackMeta, String>,
    ) -> (r: Result<PlayOutcome, CommandError>)
        requires
            old(self).wf(),
            has_guild(old(self)@, guild_id) ==> queue_at(old(self)@, guild_id).entries.len()
                < usize::MAX,
        ensures
            final(self).wf(),
            !starts_with_http(url@) ==> r == Result::<PlayOutcome, CommandError>::Err(
                CommandError::InvalidArgument,
            ) && final(self)@ == old(self)@,
            starts_with_http(url@) && !has_guild(old(self)@, guild_id) ==> r == Result::<
                PlayOutcome,
                CommandError,
            >::Err(CommandError::NoActiveSession) && final(self)@ == old(self)@,
            starts_with_http(url@) && has_guild(old(self)@, guild_id) ==> ({
                let i = guild_index(old(self)@, guild_id);
                let q = old(self)@[i].queue;
                let t = outcome_model(url@, outcome);
                final(self)@ == with_queue(old(self)@, i, q.enqueued(t, mode)) && r == Result::<
                    PlayOutcome,
                    CommandError,
                >::Ok(
                    PlayOutcome {
                        position: q.enqueue_position(mode) as usize,
                        started: q.cursor is None,
                    },
                )
            }),
    {
        if !is_valid_track_url(url.as_str()) {
            return Err(CommandError::InvalidArgument);
        }
        let i = match self.find(guild_id) {
            Some(i) => i,
            None => {
                return Err(CommandError::NoActiveSession);
            },
        };
        let t = track_from_outcome(url, outcome);
        let mut s = self.sessions.remove(i);
        let (position, started) = s.queue.enqueue(t, mode);
        self.sessions.insert(i, s);
        proof {
            let i = i as int;
            assert(self@ =~= with_queue(
                old(self)@,
                i,
                old(self)@[i].queue.enqueued(outcome_model(url@, outcome), mode),
            ));
            lemma_registry_update(old(self)@, i, self@[i]);
        }
        Ok(PlayOutcome { position, started })
    }

    /// Expands a playlist listing into the guild's queue: members from the
    /// 1-indexed `start_index` on, capped at `cap`, each queued as a lazily
    /// resolved entry. A failed listing reports `ListError` and leaves the
    /// queue unharmed.
    pub fn playlist(
        &mut self,
        guild_id: u64,
        url: &str,
        start_index: usize,
        cap: usize,
        listing: Result<Vec<String>, String>,
    ) -> (r: Result<PlaylistOutcome, CommandError>)
        requires
            old(self).wf(),
            start_index >= 1,
            (has_guild(old(self)@, guild_id) && listing is Ok) ==> queue_at(
                old(self)@,
                guild_id,
            ).entries.len() + listing->Ok_0@.len() <= usize::MAX,
        ensures
            final(self).wf(),
            !(starts_with_http(url@) || has_list_marker(url@)) ==> r == Result::<
                PlaylistOutcome,
                CommandError,
            >::Err(CommandError::InvalidArgument) && final(self)@ == old(self)@,
            (starts_with_http(url@) || has_list_marker(url@)) && !has_guild(old(self)@, guild_id)
                ==> r == Result::<PlaylistOutcome, CommandError>::Err(CommandError::NoActiveSession)
                && final(self)@ == old(self)@,
            (starts_with_http(url@) || has_list_marker(url@)) && has_guild(old(self)@, guild_id)
                && listing is Err ==> r == Result::<PlaylistOutcome, CommandError>::Err(
                CommandError::ListError,
            ) && final(self)@ == old(self)@,
            ((starts_with_http(url@) || has_list_marker(url@)) && has_guild(old(self)@, guild_id)
                && listing is Ok) ==> ({
                let i = guild_index(old(self)@, guild_id);
                let q = old(self)@[i].queue;
                let w = window_of(str_views(listing->Ok_0@), start_index as int, cap as int);
                final(self)@ == with_queue(old(self)@, i, q.enqueued_all(pending_all(w)))
                    && (r matches Ok(p) && p.queued == w.len() && p.total == q.enqueued_all(
                    pending_all(w),
                ).entries.len() && p.started == (q.cursor is None && w.len() > 0))
            }),
    {
        if !is_valid_playlist_url(url) {
            return Err(CommandError::InvalidArgument);
        }
        let i = match self.find(guild_id) {
            Some(i) => i,
            None => {
                return Err(CommandError::NoActiveSession);
            },
        };
        let members = match listing {
            Ok(m) => m,
            Err(_) => {
                return Err(CommandError::ListError);
            },
        };
        let ghost members_v = members@;
        let window = playlist_window(members, start_index, cap);
        let ghost window_v = window@;
        let queued = window.len();
        let tracks = pending_tracks(window);
        let ghost w = window_of(str_views(members_v), start_index as int, cap as int);
        proof {
            assert forall|j: int| 0 <= j < tracks@.len() implies views_of(tracks@)[j] == pending_all(
                w,
            )[j] by {
                assert(tracks@[j]@ == pending_model(window_v[j]@));
                assert(str_views(window_v)[j] == window_v[j]@);
            }
            assert(views_of(tracks@) =~= pending_all(w));
        }
        let mut s = self.sessions.remove(i);
        let started = s.queue.enqueue_many(tracks);
        let total = s.queue.len();
        self.sessions.insert(i, s);
        proof {
            let i = i as int;
            assert(self@ =~= with_queue(
                old(self)@,
                i,
                old(self)@[i].queue.enqueued_all(pending_all(w)),
            ));
            lemma_registry_update(old(self)@, i, self@[i]);
        }
        Ok(PlaylistOutcome { queued, total, started })
    }

    /// Decides a `skip`: whether the voice transport should stop the
    /// guild's current stream. The queue advances once the completion event
    /// arrives.
    pub fn skip(&self, guild_id: u64) -> (r: Result<bool, CommandError>)
        requires
            self.wf(),
        ensures
            !has_guild(self@, guild_id) ==> r == Result::<bool, CommandError>::Err(
                CommandError::NoActiveSession,
            ),
            has_guild(self@, guild_id) ==> r == Result::<bool, CommandError>::Ok(
                queue_at(self@, guild_id).play != PlayState::Stopped,
            ),
    {
        let i = match self.find(guild_id) {
            Some(i) => i,
            None => {
                return Err(CommandError::NoActiveSession);
            },
        };
        Ok(self.sessions[i].queue.skip())
    }

    /// Settles a completion event for the guild's queue.
    pub fn on_track_complete(&mut self, guild_id: u64, gen: u64) -> (r: Result<
        CompletionOutcome,
        CommandError,
    >)
        requires
            old(self).wf(),
        ensures
            final(self).wf(),
            !has_guild(old(self)@, guild_id) ==> r == Result::<CompletionOutcome, CommandError>::Err(
                CommandError::NoActiveSession,
            ) && final(self)@ == old(self)@,
            has_guild(old(self)@, guild_id) ==> ({
                let i = guild_index(old(self)@, guild_id);
                let q = old(self)@[i].queue;
                final(self)@ == with_queue(old(self)@, i, q.completed(gen)) && (r matches Ok(o) && (
                o == CompletionOutcome::Stale <==> (q.generation != gen || q.cursor is None)) && (o
                    == CompletionOutcome::Advanced <==> (q.generation == gen && match q.cursor {
                    Some(k) => k < q.entries.len() - 1,
                    None => false,
                })))
            }),
    {
        let i = match self.find(guild_id) {
            Some(i) => i,
            None => {
                return Err(CommandError::NoActiveSession);
            },
        };
        let mut s = self.sessions.remove(i);
        let o = s.queue.on_track_complete(gen);
        self.sessions.insert(i, s);
        proof {
            let i = i as int;
            assert(self@ =~= with_queue(old(self)@, i, old(self)@[i].queue.completed(gen)));
            lemma_registry_update(old(self)@, i, self@[i]);
        }
        Ok(o)
    }

    /// Skips the run of failed entries at the guild's cursor, handing back
    /// the removed descriptors so each failure can be reported.
    pub fn advance_past_failed(&mut self, guild_id: u64) -> (r: Result<
        Vec<TrackDescriptor>,
        CommandError,
    >)
        requires
            old(self).wf(),
        ensures
            final(self).wf(),
            !has_guild(old(self)@, guild_id) ==> r == Result::<
                Vec<TrackDescriptor>,
                CommandError,
            >::Err(CommandError::NoActiveSession) && final(self)@ == old(self)@,
            has_guild(old(self)@, guild_id) ==> ({
                let i = guild_index(old(self)@, guild_id);
                let q = old(self)@[i].queue;
                final(self)@ == with_queue(old(self)@, i, q.advanced()) && (r matches Ok(v)
                    && views_of(v@) == (match q.cursor {
                    Some(k) => q.entries.subrange(k, k + failed_prefix_len(q.entries.skip(k))),
                    None => Seq::<TrackModel>::empty(),
                }))
            }),
    {
        let i = match self.find(guild_id) {
            Some(i) => i,
            None => {
                return Err(CommandError::NoActiveSession);
            },
        };
        let mut s = self.sessions.remove(i);
        let v = s.queue.advance_past_failed();
        self.sessions.insert(i, s);
        proof {
            let i = i as int;
            assert(self@ =~= with_queue(old(self)@, i, old(self)@[i].queue.advanced()));
            lemma_registry_update(old(self)@, i, self@[i]);
        }
        Ok(v)
    }

    /// Records a resolution outcome for the entry at `index` of the guild's
    /// queue.
    pub fn apply_resolution(
        &mut self,
        guild_id: u64,
        index: usize,
        outcome: Result<TrackMeta, String>,
    ) -> (r: Result<bool, CommandError>)
        requires
            old(self).wf(),
        ensures
            final(self).wf(),
            !has_guild(old(self)@, guild_id) ==> r == Result::<bool, CommandError>::Err(
                CommandError::NoActiveSession,
            ) && final(self)@ == old(self)@,
            has_guild(old(self)@, guild_id) ==> ({
                let i = guild_index(old(self)@, guild_id);
                let q = old(self)@[i].queue;
                r == Result::<bool, CommandError>::Ok(index < q.entries.len()) && (if index
                    < q.entries.len() {
                    final(self)@ == with_queue(
                        old(self)@,
                        i,
                        (QueueModel {
                            entries: q.entries.update(
                                index as int,
                                (match outcome {
                                    Ok(meta) => crate::track::resolved_model(
                                        q.entries[index as int].url,
                                        meta@,
                                    ),
                                    Err(reason) => crate::track::failed_model(
                                        q.entries[index as int],
                                        reason@,
                                    ),
                                }),
                            ),
                            ..q
                        }),
                    )
                } else {
                    final(self)@ == old(self)@
                })
            }),
    {
        let i = match self.find(guild_id) {
            Some(i) => i,
            None => {
                return Err(CommandError::NoActiveSession);
            },
        };
        let mut s = self.sessions.remove(i);
        let applied = s.queue.apply_resolution(index, outcome);
        self.sessions.insert(i, s);
        proof {
            let i = i as int;
            if applied {
                lemma_registry_update(old(self)@, i, self@[i]);
                assert(self@ =~= with_queue(old(self)@, i, self@[i].queue));
            } else {
                assert(self@ =~= old(self)@);
            }
        }
        Ok(applied)
    }

    /// Pauses the guild's queue; `Ok(false)` reports it was not playing.
    pub fn pause(&mut self, guild_id: u64) -> (r: Result<bool, CommandError>)
        requires
            old(self).wf(),
        ensures
            final(self).wf(),
            !has_guild(old(self)@, guild_id) ==> r == Result::<bool, CommandError>::Err(
                CommandError::NoActiveSession,
            ) && final(self)@ == old(self)@,
            has_guild(old(self)@, guild_id) ==> ({
                let i = guild_index(old(self)@, guild_id);
                let q = old(self)@[i].queue;
                final(self)@ == with_queue(old(self)@, i, q.paused()) && r == Result::<
                    bool,
                    CommandError,
                >::Ok(q.play == PlayState::Playing)
            }),
    {
        let i = match self.find(guild_id) {
            Some(i) => i,
            None => {
                return Err(CommandError::NoActiveSession);
            },
        };
        let mut s = self.sessions.remove(i);
        let changed = s.queue.pause();
        self.sessions.insert(i, s);
        proof {
            let i = i as int;
            assert(self@ =~= with_queue(old(self)@, i, old(self)@[i].queue.paused()));
            lemma_registry_update(old(self)@, i, self@[i]);
        }
        Ok(changed)
    }

    /// Resumes the guild's queue; `Ok(false)` reports it was not paused.
    pub fn resume(&mut self, guild_id: u64) -> (r: Result<bool, CommandError>)
        requires
            old(self).wf(),
        ensures
            final(self).wf(),
            !has_guild(old(self)@, guild_id) ==> r == Result::<bool, CommandError>::Err(
                CommandError::NoActiveSession,
            ) && final(self)@ == old(self)@,
            has_guild(old(self)@, guild_id) ==> ({
                let i = guild_index(old(self)@, guild_id);
                let q = old(self)@[i].queue;
                final(self)@ == with_queue(old(self)@, i, q.resumed()) && r == Result::<
                    bool,
                    CommandError,
                >::Ok(q.play == PlayState::Paused)
            }),
    {
        let i = match self.find(guild_id) {
            Some(i) => i,
            None => {
                return Err(CommandError::NoActiveSession);
            },
        };
        let mut s = self.sessions.remove(i);
        let changed = s.queue.resume();
        self.sessions.insert(i, s);
        proof {
            let i = i as int;
            assert(self@ =~= with_queue(old(self)@, i, old(self)@[i].queue.resumed()));
            lemma_registry_update(old(self)@, i, self@[i]);
        }
        Ok(changed)
    }

    /// Clears the guild's queue and stops playback; the caller halts the
    /// voice transport.
    pub fn stop(&mut self, guild_id: u64) -> (r: Result<(), CommandError>)
        requires
            old(self).wf(),
        ensures
            final(self).wf(),
            !has_guild(old(self)@, guild_id) ==> r == Result::<(), CommandError>::Err(
                CommandError::NoActiveSession,
            ) && final(self)@ == old(self)@,
            has_guild(old(self)@, guild_id) ==> ({
                let i = guild_index(old(self)@, guild_id);
                final(self)@ == with_queue(old(self)@, i, old(self)@[i].queue.halted()) && r
                    == Result::<(), CommandError>::Ok(())
            }),
    {
        let i = match self.find(guild_id) {
            Some(i) => i,
            None => {
                return Err(CommandError::NoActiveSession);
            },
        };
        let mut s = self.sessions.remove(i);
        s.queue.stop();
        self.sessions.insert(i, s);
        proof {
            let i = i as int;
            assert(self@ =~= with_queue(old(self)@, i, old(self)@[i].queue.halted()));
            lemma_registry_update(old(self)@, i, self@[i]);
        }
        Ok(())
    }

    /// Removes the entry at a 1-indexed display position of the guild's
    /// queue, handing the removed descriptor back.
    pub fn remove(&mut self, guild_id: u64, position: usize) -> (r: Result<
        TrackDescriptor,
        CommandError,
    >)
        requires
            old(self).wf(),
        ensures
            final(self).wf(),
            !has_guild(old(self)@, guild_id) ==> r == Result::<TrackDescriptor, CommandError>::Err(
                CommandError::NoActiveSession,
            ) && final(self)@ == old(self)@,
            has_guild(old(self)@, guild_id) ==> ({
                let i = guild_index(old(self)@, guild_id);
                let q = old(self)@[i].queue;
                if q.remove_ok(position as int) {
                    final(self)@ == with_queue(old(self)@, i, q.removed(position as int)) && (
                    r matches Ok(t) && t@ == q.entries[position - 1])
                } else {
                    final(self)@ == old(self)@ && r == Result::<TrackDescriptor, CommandError>::Err(
                        if !(1 <= position <= q.entries.len()) {
                            CommandError::OutOfRange
                        } else {
                            CommandError::LiveEntry
                        },
                    )
                }
            }),
    {
        let i = match self.find(guild_id) {
            Some(i) => i,
            None => {
                return Err(CommandError::NoActiveSession);
            },
        };
        let mut s = self.sessions.remove(i);
        let out = s.queue.remove(position);
        self.sessions.insert(i, s);
        proof {
            let i = i as int;
            if old(self)@[i].queue.remove_ok(position as int) {
                assert(self@ =~= with_queue(
                    old(self)@,
                    i,
                    old(self)@[i].queue.removed(position as int),
                ));
                lemma_registry_update(old(self)@, i, self@[i]);
            } else {
                assert(self@ =~= old(self)@);
            }
        }
        out
    }

    /// Decides a `seek`: the offset is forwarded to the voice transport
    /// only while the guild has a current entry.
    pub fn seek(&self, guild_id: u64, offset_secs: u64) -> (r: Result<u64, CommandError>)
        requires
            self.wf(),
        ensures
            !has_guild(self@, guild_id) ==> r == Result::<u64, CommandError>::Err(
                CommandError::NoActiveSession,
            ),
            has_guild(self@, guild_id) ==> r == (if queue_at(self@, guild_id).cursor is Some {
                Result::<u64, CommandError>::Ok(offset_secs)
            } else {
                Result::<u64, CommandError>::Err(CommandError::NotPlaying)
            }),
    {
        let i = match self.find(guild_id) {
            Some(i) => i,
            None => {
                return Err(CommandError::NoActiveSession);
            },
        };
        self.sessions[i].queue.seek(offset_secs)
    }

    /// A point-in-time copy of the guild's queue, for display.
    pub fn snapshot(&self, guild_id: u64) -> (r: Result<QueueSnapshot, CommandError>)
        requires
            self.wf(),
        ensures
            !has_guild(self@, guild_id) ==> r == Result::<QueueSnapshot, CommandError>::Err(
                CommandError::NoActiveSession,
            ),
            has_guild(self@, guild_id) ==> (r matches Ok(s) && s@ == queue_at(
                self@,
                guild_id,
            ).snap() && s.wf()),
    {
        let i = match self.find(guild_id) {
            Some(i) => i,
            None => {
                return Err(CommandError::NoActiveSession);
            },
        };
        Ok(self.sessions[i].queue.snapshot())
    }

    /// A copy of the guild's current entry, if one is streaming.
    pub fn current(&self, guild_id: u64) -> (r: Result<Option<TrackDescriptor>, CommandError>)
        requires
            self.wf(),
        ensures
            !has_guild(self@, guild_id) ==> r == Result::<
                Option<TrackDescriptor>,
                CommandError,
            >::Err(CommandError::NoActiveSession),
            has_guild(self@, guild_id) ==> ({
                let q = queue_at(self@, guild_id);
                match r {
                    Ok(Some(t)) => q.cursor is Some && t@ == q.entries[q.cursor->0],
                    Ok(None) => q.cursor is None,
                    Err(_) => false,
                }
            }),
    {
        let i = match self.find(guild_id) {
            Some(i) => i,
            None => {
                return Err(CommandError::NoActiveSession);
            },
        };
        Ok(self.sessions[i].queue.current())
    }

    /// Lays out one display page of the guild's queue: the current entry
    /// plus the requested ten of the entries after it.
    pub fn queue_view(&self, guild_id: u64, page: usize) -> (r: Result<
        QueueViewReply,
        CommandError,
    >)
        requires
            self.wf(),
            has_guild(self@, guild_id) ==> queue_at(self@, guild_id).entries.len() + 9 < usize::MAX,
        ensures
            !has_guild(self@, guild_id) ==> r == Result::<QueueViewReply, CommandError>::Err(
                CommandError::NoActiveSession,
            ),
            has_guild(self@, guild_id) ==> ({
                let q = queue_at(self@, guild_id);
                match q.cursor {
                    None => r == Result::<QueueViewReply, CommandError>::Ok(QueueViewReply::Empty),
                    Some(k) => {
                        let up = q.entries.len() - k - 1;
                        if !page_ok(up, page as int) {
                            r == Result::<QueueViewReply, CommandError>::Err(
                                CommandError::OutOfRange,
                            )
                        } else {
                            let start = k + 1 + 10 * (page - 1);
                            let end = if start + 10 <= q.entries.len() {
                                start + 10
                            } else {
                                q.entries.len() as int
                            };
                            match r {
                                Ok(QueueViewReply::Page(p)) => p.now_playing@ == q.entries[k]
                                    && views_of(p.upcoming@) == q.entries.subrange(start, end)
                                    && p.first_position == 1 + 10 * (page - 1) && p.page == page
                                    && p.page_count == page_count_of(q.entries.len() as int),
                                _ => false,
                            }
                        }
                    },
                }
            }),
    {
        let i = match self.find(guild_id) {
            Some(i) => i,
            None => {
                return Err(CommandError::NoActiveSession);
            },
        };
        let snap = self.sessions[i].queue.snapshot();
        snap.view_page(page)
    }

    /// The generation the guild's next started stream should carry.
    pub fn playback_generation(&self, guild_id: u64) -> (r: Result<u64, CommandError>)
        requires
            self.wf(),
        ensures
            !has_guild(self@, guild_id) ==> r == Result::<u64, CommandError>::Err(
                CommandError::NoActiveSession,
            ),
            has_guild(self@, guild_id) ==> r == Result::<u64, CommandError>::Ok(
                queue_at(self@, guild_id).generation,
            ),
    {
        let i = match self.find(guild_id) {
            Some(i) => i,
            None => {
                return Err(CommandError::NoActiveSession);
            },
        };
        Ok(self.sessions[i].queue.generation())
    }
}

} // verus!
