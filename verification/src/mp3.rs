//! Tracks from the ID3 tags of MP3 files.

use vstd::prelude::*;
use crate::track::{describes, lemma_tagged_track_describes, tagged_track, track_from_tags, Track, TrackView};

verus! {

/// The fields of an ID3 tag that a track is built from.
#[derive(Debug)]
pub struct Id3Tags {
    pub title: Option<String>,
    /// The track number (`TRCK`, without any total).
    pub track: Option<u32>,
    pub album: Option<String>,
    pub album_artist: Option<String>,
    pub artist: Option<String>,
}

/// The track that the ID3 fields `t` of the file at `path` describe.
pub open spec fn id3_track(t: Id3Tags, path: Seq<char>) -> Option<TrackView> {
    tagged_track(
        path,
        t.title.deep_view(),
        t.track,
        t.album.deep_view(),
        t.album_artist.deep_view(),
        t.artist.deep_view(),
    )
}

/// An ID3 tag gives the track whose title, number and album are its title,
/// track number and album, and whose artist is its album artist when it has
/// one, else its artist.
pub proof fn lemma_id3_track(t: Id3Tags, path: Seq<char>)
    ensures
        describes(
            id3_track(t, path),
            path,
            t.title.deep_view(),
            t.track,
            t.album.deep_view(),
            t.album_artist.deep_view(),
            t.artist.deep_view(),
        ),
{
    lemma_tagged_track_describes(
        path,
        t.title.deep_view(),
        t.track,
        t.album.deep_view(),
        t.album_artist.deep_view(),
        t.artist.deep_view(),
    );
}

/// The track that the ID3 fields `t` of the file at `path` describe, if they
/// describe one.
pub fn parse_tags(t: Id3Tags, path: &str) -> (r: Option<Track>)
    ensures
        r.deep_view() == id3_track(t, path@),
{
    let Id3Tags { title, track, album, album_artist, artist } = t;
    track_from_tags(String::from_str(path), title, track, album, album_artist, artist)
}

} // verus!
