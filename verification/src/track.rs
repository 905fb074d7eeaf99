use vstd::prelude::*;

verus! {

/// How far resolution of a queued item has progressed.
///
/// A descriptor starts `Pending`, becomes `Ready` once the external resolver
/// has filled its metadata, or `Failed` with the resolver's reason. A
/// `Failed` entry stays in the queue and is skipped over when its turn comes.
#[derive(Debug, PartialEq, Eq)]
pub enum ResolutionState {
    Pending,
    Ready,
    Failed(String),
}

/// Mathematical model of a `ResolutionState`.
pub enum StateModel {
    Pending,
    Ready,
    Failed(Seq<char>),
}

impl View for ResolutionState {
    type V = StateModel;

    open spec fn view(&self) -> StateModel {
        match self {
            ResolutionState::Pending => StateModel::Pending,
            ResolutionState::Ready => StateModel::Ready,
            ResolutionState::Failed(reason) => StateModel::Failed(reason@),
        }
    }
}

/// Metadata and resolution state for one queued playable item.
///
/// The descriptor is exclusively owned by the queue slot that holds it; the
/// optional fields stay `None` until resolution completes.
#[derive(Debug, PartialEq, Eq)]
pub struct TrackDescriptor {
    pub source_url: String,
    pub title: Option<String>,
    pub duration_secs: Option<u64>,
    pub thumbnail: Option<String>,
    pub state: ResolutionState,
}

/// Mathematical model of a `TrackDescriptor`.
#[verifier::ext_equal]
pub struct TrackModel {
    pub url: Seq<char>,
    pub title: Option<Seq<char>>,
    pub duration_secs: Option<u64>,
    pub thumbnail: Option<Seq<char>>,
    pub state: StateModel,
}

impl View for TrackDescriptor {
    type V = TrackModel;

    open spec fn view(&self) -> TrackModel {
        TrackModel {
            url: self.source_url@,
            title: match self.title {
                Some(t) => Some(t@),
                None => None,
            },
            duration_secs: self.duration_secs,
            thumbnail: match self.thumbnail {
                Some(t) => Some(t@),
                None => None,
            },
            state: self.state@,
        }
    }
}

/// Metadata the external resolver reports for one playable item.
#[derive(Debug, PartialEq, Eq)]
pub struct TrackMeta {
    pub title: Option<String>,
    pub duration_secs: Option<u64>,
    pub thumbnail: Option<String>,
}

/// Mathematical model of a `TrackMeta`.
#[verifier::ext_equal]
pub struct MetaModel {
    pub title: Option<Seq<char>>,
    pub duration_secs: Option<u64>,
    pub thumbnail: Option<Seq<char>>,
}

impl View for TrackMeta {
    type V = MetaModel;

    open spec fn view(&self) -> MetaModel {
        MetaModel {
            title: match self.title {
                Some(t) => Some(t@),
                None => None,
            },
            duration_secs: self.duration_secs,
            thumbnail: match self.thumbnail {
                Some(t) => Some(t@),
                None => None,
            },
        }
    }
}

/// The model of a descriptor that awaits resolution of `url`.
pub open spec fn pending_model(url: Seq<char>) -> TrackModel {
    TrackModel {
        url: url,
        title: None,
        duration_secs: None,
        thumbnail: None,
        state: StateModel::Pending,
    }
}

/// The model of a descriptor whose resolution succeeded with `meta`.
pub open spec fn resolved_model(url: Seq<char>, meta: MetaModel) -> TrackModel {
    TrackModel {
        url: url,
        title: meta.title,
        duration_secs: meta.duration_secs,
        thumbnail: meta.thumbnail,
        state: StateModel::Ready,
    }
}

/// The model of `t` after its resolution failed for `reason`; the metadata
/// gathered so far is kept.
pub open spec fn failed_model(t: TrackModel, reason: Seq<char>) -> TrackModel {
    TrackModel { state: StateModel::Failed(reason), ..t }
}

/// Clones an optional string, keeping its characters.
fn clone_opt_string(o: &Option<String>) -> (r: Option<String>)
    ensures
        (match (o, &r) {
            (Some(a), Some(b)) => a@ == b@,
            (None, None) => true,
            _ => false,
        }),
{
    match o {
        Some(s) => Some(s.clone()),
        None => None,
    }
}

impl Clone for ResolutionState {
    fn clone(&self) -> (r: Self)
        ensures
            r@ == self@,
    {
        match self {
            ResolutionState::Pending => ResolutionState::Pending,
            ResolutionState::Ready => ResolutionState::Ready,
            ResolutionState::Failed(reason) => ResolutionState::Failed(reason.clone()),
        }
    }
}

impl Clone for TrackDescriptor {
    fn clone(&self) -> (r: Self)
        ensures
            r@ == self@,
    {
        TrackDescriptor {
            source_url: self.source_url.clone(),
            title: clone_opt_string(&self.title),
            duration_secs: self.duration_secs,
            thumbnail: clone_opt_string(&self.thumbnail),
            state: self.state.clone(),
        }
    }
}

} // verus!
