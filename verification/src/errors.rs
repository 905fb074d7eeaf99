use vstd::prelude::*;

verus! {

/// Everything a command can report instead of succeeding.
///
/// `LiveEntry` is the explicit "use skip" signal: removal by position never
/// touches the entry that is currently streaming.
#[derive(Clone, Copy, Debug, PartialEq, Eq, Structural)]
pub enum CommandError {
    /// The caller is not in a voice channel, so there is no target to join.
    NotInVoiceChannel,
    /// The guild has no live session.
    NoActiveSession,
    /// The voice transport could not be connected; no session was registered.
    ConnectionError,
    /// The external playlist listing call failed; the session is unharmed.
    ListError,
    /// A 1-indexed position or page number does not name an entry.
    OutOfRange,
    /// The position names the currently streaming entry; skipping is the way.
    LiveEntry,
    /// There is no current entry to seek within.
    NotPlaying,
    /// A malformed URL or missing argument.
    InvalidArgument,
}

} // verus!
