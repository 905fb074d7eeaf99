use vstd::prelude::*;
use vstd::string::StrSliceExecFns;

use crate::track::{
    failed_model, pending_model, resolved_model, ResolutionState, TrackDescriptor, TrackMeta,
    TrackModel,
};

verus! {

/// Whether the characters start with "http".
pub open spec fn starts_with_http(s: Seq<char>) -> bool {
    s.len() >= 4 && s[0] == 'h' && s[1] == 't' && s[2] == 't' && s[3] == 'p'
}

/// Whether the characters contain "list" somewhere, the marker of a
/// playlist URL.
pub open spec fn has_list_marker(s: Seq<char>) -> bool {
    exists|i: int|
        0 <= i && i + 4 <= s.len() && (#[trigger] s[i]) == 'l' && s[i + 1] == 'i' && s[i + 2]
            == 's' && s[i + 3] == 't'
}

/// A URL is accepted for single-track playback when it starts with "http".
pub fn is_valid_track_url(url: &str) -> (r: bool)
    ensures
        r == starts_with_http(url@),
{
    let n = url.unicode_len();
    if n < 4 {
        return false;
    }
    url.get_char(0) == 'h' && url.get_char(1) == 't' && url.get_char(2) == 't' && url.get_char(3)
        == 'p'
}

/// A URL is accepted for playlist expansion when it starts with "http" or
/// carries a "list" marker.
pub fn is_valid_playlist_url(url: &str) -> (r: bool)
    ensures
        r == (starts_with_http(url@) || has_list_marker(url@)),
{
    let n = url.unicode_len();
    if n >= 4 && url.get_char(0) == 'h' && url.get_char(1) == 't' && url.get_char(2) == 't'
        && url.get_char(3) == 'p' {
        return true;
    }
    if n < 4 {
        return false;
    }
    let mut i: usize = 0;
    while i <= n - 4
        invariant
            n == url@.len(),
            n >= 4,
            i <= n - 3,
            forall|j: int|
                0 <= j < i ==> !((#[trigger] url@[j]) == 'l' && url@[j + 1] == 'i' && url@[j + 2]
                    == 's' && url@[j + 3] == 't'),
        decreases n - i,
    {
        if url.get_char(i) == 'l' && url.get_char(i + 1) == 'i' && url.get_char(i + 2) == 's'
            && url.get_char(i + 3) == 't' {
            return true;
        }
        i += 1;
    }
    false
}

/// A descriptor for `url` that still awaits resolution.
pub fn pending_track(url: String) -> (t: TrackDescriptor)
    ensures
        t@ == pending_model(url@),
{
    TrackDescriptor {
        source_url: url,
        title: None,
        duration_secs: None,
        thumbnail: None,
        state: ResolutionState::Pending,
    }
}

/// The model a resolver outcome for `url` turns into: `Ready` with the
/// reported metadata, or `Failed` with the reason. A raw resolver error
/// never travels further than this.
pub open spec fn outcome_model(url: Seq<char>, outcome: Result<TrackMeta, String>) -> TrackModel {
    match outcome {
        Ok(meta) => resolved_model(url, meta@),
        Err(reason) => failed_model(pending_model(url), reason@),
    }
}

/// Turns what the external resolver reported for `url` into a descriptor:
/// the queue always receives a descriptor, never a raw error.
pub fn track_from_outcome(url: String, outcome: Result<TrackMeta, String>) -> (t: TrackDescriptor)
    ensures
        t@ == outcome_model(url@, outcome),
{
    match outcome {
        Ok(meta) => TrackDescriptor {
            source_url: url,
            title: meta.title,
            duration_secs: meta.duration_secs,
            thumbnail: meta.thumbnail,
            state: ResolutionState::Ready,
        },
        Err(reason) => TrackDescriptor {
            source_url: url,
            title: None,
            duration_secs: None,
            thumbnail: None,
            state: ResolutionState::Failed(reason),
        },
    }
}

/// The characters of a sequence of strings, in order.
pub open spec fn str_views(s: Seq<String>) -> Seq<Seq<char>> {
    s.map_values(|x: String| x@)
}

/// The members a playlist expansion keeps: the first `start_index - 1` are
/// dropped and at most `cap` remain.
pub open spec fn window_of(members: Seq<Seq<char>>, start_index: int, cap: int) -> Seq<Seq<char>> {
    let lo = if start_index - 1 <= members.len() {
        start_index - 1
    } else {
        members.len() as int
    };
    let hi = if lo + cap <= members.len() {
        lo + cap
    } else {
        members.len() as int
    };
    members.subrange(lo, hi)
}

/// Selects the playlist members to queue: member URLs from the 1-indexed
/// `start_index` on, capped at `cap` entries. A window past the end is
/// empty; the rest of a long playlist is dropped, not queued.
pub fn playlist_window(members: Vec<String>, start_index: usize, cap: usize) -> (r: Vec<String>)
    requires
        start_index >= 1,
    ensures
        str_views(r@) == window_of(str_views(members@), start_index as int, cap as int),
{
    let lo = if start_index - 1 <= members.len() {
        start_index - 1
    } else {
        members.len()
    };
    let hi = if cap <= members.len() - lo {
        lo + cap
    } else {
        members.len()
    };
    let mut r: Vec<String> = Vec::new();
    let mut i: usize = lo;
    while i < hi
        invariant
            lo <= i <= hi <= members@.len(),
            r@.len() == i - lo,
            forall|j: int| 0 <= j < r@.len() ==> #[trigger] r@[j]@ == members@[lo + j]@,
        decreases hi - i,
    {
        r.push(members[i].clone());
        i += 1;
    }
    proof {
        let w = window_of(str_views(members@), start_index as int, cap as int);
        assert forall|j: int| 0 <= j < r@.len() implies str_views(r@)[j] == w[j] by {
            assert(r@[j]@ == members@[lo + j]@);
        }
        assert(str_views(r@) =~= w);
    }
    r
}

/// One `Pending` descriptor model per member URL, in order.
pub open spec fn pending_all(urls: Seq<Seq<char>>) -> Seq<TrackModel> {
    urls.map_values(|u: Seq<char>| pending_model(u))
}

/// One `Pending` descriptor per member URL, in playlist order, so that each
/// member is resolved lazily, just before it would play.
pub fn pending_tracks(urls: Vec<String>) -> (r: Vec<TrackDescriptor>)
    ensures
        r@.len() == urls@.len(),
        forall|i: int| 0 <= i < r@.len() ==> #[trigger] r@[i]@ == pending_model(urls@[i]@),
{
    let mut r: Vec<TrackDescriptor> = Vec::new();
    let mut i: usize = 0;
    while i < urls.len()
        invariant
            i <= urls@.len(),
            r@.len() == i,
            forall|j: int| 0 <= j < i ==> #[trigger] r@[j]@ == pending_model(urls@[j]@),
        decreases urls@.len() - i,
    {
        r.push(pending_track(urls[i].clone()));
        i += 1;
    }
    r
}

} // verus!
