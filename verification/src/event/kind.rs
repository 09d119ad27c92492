//! Event kinds SESH itself emits. `Event::kind` is a free string by design;
//! these are the ones this codebase produces.

use vstd::prelude::*;

verus! {

/// Someone joined the room.
pub const PRESENCE_ARRIVED: &'static str = "presence.arrived";

/// Someone left the room.
pub const PRESENCE_LEFT: &'static str = "presence.left";

/// An app was started by the launcher.
pub const APP_LAUNCHED: &'static str = "app.launched";

/// An app stopped — quit by SESH or exited on its own.
pub const APP_EXITED: &'static str = "app.exited";

/// Someone scanned the QR and became a person the house knows.
pub const PERSON_JOINED: &'static str = "person.joined";

/// Someone added a track. The actor is who added it; this event's own id
/// becomes the queue entry id every later music event refers to.
pub const MUSIC_QUEUED: &'static str = "music.queued";

/// Someone voted to skip a queued or playing track.
pub const MUSIC_VETOED: &'static str = "music.vetoed";

/// A track began playing.
pub const MUSIC_STARTED: &'static str = "music.started";

/// A track ended or was dropped. `payload.why` says which.
pub const MUSIC_SKIPPED: &'static str = "music.skipped";

/// The room's Bluetooth speaker appeared. `subject` is the sink name.
pub const AUDIO_SINK_FOUND: &'static str = "audio.sink_found";

/// The room's Bluetooth speaker went away. `subject` is the sink name.
///
/// On a Victrola this is also the vinyl handoff signal: switching the unit
/// to phono drops the A2DP link, so "the speaker left" and "someone put a
/// record on" are the same event.
pub const AUDIO_SINK_LOST: &'static str = "audio.sink_lost";

/// The four music kinds are four different kinds.
pub proof fn lemma_music_kinds_differ()
    ensures
        MUSIC_QUEUED@ != MUSIC_VETOED@,
        MUSIC_QUEUED@ != MUSIC_STARTED@,
        MUSIC_QUEUED@ != MUSIC_SKIPPED@,
        MUSIC_VETOED@ != MUSIC_STARTED@,
        MUSIC_VETOED@ != MUSIC_SKIPPED@,
        MUSIC_STARTED@ != MUSIC_SKIPPED@,
{
    reveal_strlit("music.queued");
    reveal_strlit("music.vetoed");
    reveal_strlit("music.started");
    reveal_strlit("music.skipped");
    assert(MUSIC_QUEUED@[6] != MUSIC_VETOED@[6]);
    assert(MUSIC_STARTED@[7] != MUSIC_SKIPPED@[7]);
}

} // verus!
