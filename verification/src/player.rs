//! The seam between SESH's queue and whatever actually makes sound.
//!
//! The tracks and playback states a music source reports, as plain data.
//! Everything above this line stays testable with no network, no Spotify
//! account, and no speaker.

pub mod mock;
pub mod auth;
pub mod spotify;

use vstd::prelude::*;

verus! {

/// A track that can be queued or played.
///
/// Deliberately thin: album art, popularity and the rest of a source's
/// metadata would tie the log to one music source.
#[derive(Debug, Clone, PartialEq, Eq)]
pub struct Track {
    /// Source-specific URI, e.g. `spotify:track:...`.
    pub uri: String,
    /// Track title.
    pub title: String,
    /// Artist name. Joined with `, ` when a track has several.
    pub artist: String,
    /// Length in milliseconds. Zero when unknown.
    pub duration_ms: i64,
}

/// What a track is.
pub struct TrackModel {
    /// Source-specific URI.
    pub uri: Seq<char>,
    /// Track title.
    pub title: Seq<char>,
    /// Artist name.
    pub artist: Seq<char>,
    /// Length in milliseconds.
    pub duration_ms: i64,
}

impl View for Track {
    type V = TrackModel;

    open spec fn view(&self) -> TrackModel {
        TrackModel {
            uri: self.uri@,
            title: self.title@,
            artist: self.artist@,
            duration_ms: self.duration_ms,
        }
    }
}

/// What the player is doing right now.
#[derive(Debug, Clone, PartialEq, Eq)]
pub struct Playback {
    /// The track on the speaker.
    pub track: Track,
    /// How far into it, in milliseconds.
    pub progress_ms: i64,
    /// False when paused.
    pub is_playing: bool,
    /// Name of the device it is coming out of, if the source reports one.
    pub device: Option<String>,
}

/// What a playback state is.
pub struct PlaybackModel {
    /// The track on the speaker.
    pub track: TrackModel,
    /// How far into it, in milliseconds.
    pub progress_ms: i64,
    /// False when paused.
    pub is_playing: bool,
    /// The device it is coming out of, if reported.
    pub device: Option<Seq<char>>,
}

impl View for Playback {
    type V = PlaybackModel;

    open spec fn view(&self) -> PlaybackModel {
        PlaybackModel {
            track: self.track@,
            progress_ms: self.progress_ms,
            is_playing: self.is_playing,
            device: match self.device {
                Some(d) => Some(d@),
                None => None,
            },
        }
    }
}

/// Milliseconds left of a track `duration` long, `progress` in; never
/// negative.
pub open spec fn remaining(duration: int, progress: int) -> int {
    if duration - progress > 0 {
        duration - progress
    } else {
        0
    }
}

impl Track {
    /// A copy of this track.
    pub fn duplicate(&self) -> (r: Track)
        ensures
            r@ == self@,
    {
        Track {
            uri: self.uri.clone(),
            title: self.title.clone(),
            artist: self.artist.clone(),
            duration_ms: self.duration_ms,
        }
    }
}

impl Playback {
    /// Milliseconds left before this track ends.
    ///
    /// The conductor's pre-push window is measured against this. Clamped at
    /// zero: a source that reports progress past the end of a track should
    /// not produce a negative countdown.
    pub fn remaining_ms(&self) -> (r: i64)
        requires
            i64::MIN <= self.track.duration_ms - self.progress_ms <= i64::MAX,
        ensures
            r == remaining(self.track.duration_ms as int, self.progress_ms as int),
    {
        let left = self.track.duration_ms - self.progress_ms;
        if left > 0 {
            left
        } else {
            0
        }
    }

    /// A copy of this playback state.
    pub fn duplicate(&self) -> (r: Playback)
        ensures
            r@ == self@,
    {
        Playback {
            track: self.track.duplicate(),
            progress_ms: self.progress_ms,
            is_playing: self.is_playing,
            device: match &self.device {
                Some(d) => Some(d.clone()),
                None => None,
            },
        }
    }
}

} // verus!
