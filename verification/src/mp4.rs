//! Tracks from the metadata of MP4 audio files.

use vstd::prelude::*;
use crate::track::{describes, lemma_tagged_track_describes, tagged_track, track_from_tags, Track, TrackView};

verus! {

/// The fields of MP4 metadata that a track is built from.
#[derive(Debug)]
pub struct Mp4Tags {
    pub title: Option<String>,
    /// The track number and the number of tracks (`trkn`).
    pub track: (Option<u16>, Option<u16>),
    pub album: Option<String>,
    pub album_artist: Option<String>,
    pub artist: Option<String>,
}

/// The track number of MP4 metadata `t`, widened to `u32`.
pub open spec fn mp4_number(t: Mp4Tags) -> Option<u32> {
    match t.track.0 {
        Some(n) => Some(n as u32),
        None => None,
    }
}

/// The track that the MP4 fields `t` of the file at `path` describe.
pub open spec fn mp4_track(t: Mp4Tags, path: Seq<char>) -> Option<TrackView> {
    tagged_track(
        path,
        t.title.deep_view(),
        mp4_number(t),
        t.album.deep_view(),
        t.album_artist.deep_view(),
        t.artist.deep_view(),
    )
}

/// MP4 metadata gives the track whose title, album and number are its title,
/// album and track number (not the number of tracks), and whose artist is its
/// album artist when it has one, else its artist.
pub proof fn lemma_mp4_track(t: Mp4Tags, path: Seq<char>)
    ensures
        describes(
            mp4_track(t, path),
            path,
            t.title.deep_view(),
            match t.track.0 {
                Some(n) => Some(n as u32),
                None => None,
            },
            t.album.deep_view(),
            t.album_artist.deep_view(),
            t.artist.deep_view(),
        ),
{
    lemma_tagged_track_describes(
        path,
        t.title.deep_view(),
        mp4_number(t),
        t.album.deep_view(),
        t.album_artist.deep_view(),
        t.artist.deep_view(),
    );
}

/// The track that the MP4 fields `t` of the file at `path` describe, if they
/// describe one.
pub fn parse_tags(t: Mp4Tags, path: &str) -> (r: Option<Track>)
    ensures
        r.deep_view() == mp4_track(t, path@),
{
    let ghost t0 = t;
    let Mp4Tags { title, track, album, album_artist, artist } = t;
    let track_no = match track.0 {
        Some(n) => Some(n as u32),
        None => None,
    };
    assert(track_no == mp4_number(t0));
    track_from_tags(String::from_str(path), title, track_no, album, album_artist, artist)
}

} // verus!
