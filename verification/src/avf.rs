//! Tracks from container and stream metadata as libavformat reports it (Ogg,
//! FLAC and Opus files).

use vstd::prelude::*;
use crate::text::{before_first, lemma_first_index_is, parse_u32, parse_u32_spec, split_once_char};
use crate::track::{describes, lemma_tagged_track_describes, tagged_track, track_from_tags, Track, TrackView};

verus! {

/// The values of the metadata keys that a track is built from, in one
/// metadata dictionary.
#[derive(Debug)]
pub struct AvTags {
    /// The value of `track`: a track number, possibly followed by `/` and the
    /// number of tracks.
    pub track: Option<String>,
    pub title: Option<String>,
    pub album: Option<String>,
    pub album_artist: Option<String>,
    pub artist: Option<String>,
}

/// The track number that a `track` value gives: the text before its first
/// `/`, read as a decimal `u32`.
pub open spec fn av_number(track: Option<Seq<char>>) -> Option<u32> {
    match track {
        Some(v) => parse_u32_spec(before_first(v, '/')),
        None => None,
    }
}

/// The track that the metadata `t` of the file at `path` describe.
pub open spec fn av_track(t: AvTags, path: Seq<char>) -> Option<TrackView> {
    tagged_track(
        path,
        t.title.deep_view(),
        av_number(t.track.deep_view()),
        t.album.deep_view(),
        t.album_artist.deep_view(),
        t.artist.deep_view(),
    )
}

/// Metadata gives the track whose title and album are its `title` and
/// `album` values and whose number is read from its `track` value, and whose
/// artist is its `album_artist` value when it has one, else its `artist`
/// value.
pub proof fn lemma_av_track(t: AvTags, path: Seq<char>)
    ensures
        describes(
            av_track(t, path),
            path,
            t.title.deep_view(),
            av_number(t.track.deep_view()),
            t.album.deep_view(),
            t.album_artist.deep_view(),
            t.artist.deep_view(),
        ),
{
    lemma_tagged_track_describes(
        path,
        t.title.deep_view(),
        av_number(t.track.deep_view()),
        t.album.deep_view(),
        t.album_artist.deep_view(),
        t.artist.deep_view(),
    );
}

/// The number of a `track` value `n/total` is read from `n` alone, and a
/// value without `/` is read whole.
pub proof fn lemma_av_number(n: Seq<char>, total: Seq<char>)
    requires
        !n.contains('/'),
    ensures
        av_number(Some(n + seq!['/'] + total)) == parse_u32_spec(n),
        av_number(Some(n)) == parse_u32_spec(n),
{
    let s = n + seq!['/'] + total;
    assert forall|j: int| 0 <= j < n.len() implies s[j] != '/' by {
        assert(s[j] == n[j]);
    }
    assert(s[n.len() as int] == '/');
    lemma_first_index_is(s, '/', n.len() as int);
    assert(s.take(n.len() as int) =~= n);
    assert(!(exists|i: int| 0 <= i < n.len() && n[i] == '/'));
}

/// The track that the first of the dictionaries `ds` that describes one
/// describes.
pub open spec fn first_track(ds: Seq<AvTags>, path: Seq<char>) -> Option<TrackView>
    decreases ds.len(),
{
    if ds.len() == 0 {
        None
    } else {
        match av_track(ds[0], path) {
            Some(t) => Some(t),
            None => first_track(ds.drop_first(), path),
        }
    }
}

fn copy_text(s: &Option<String>) -> (r: Option<String>)
    ensures
        r.deep_view() == s.deep_view(),
{
    match s {
        Some(s) => Some(s.clone()),
        None => None,
    }
}

/// The track number that a `track` value gives, if any.
pub fn track_number(track: &Option<String>) -> (r: Option<u32>)
    ensures
        r == av_number(track.deep_view()),
{
    match track {
        Some(v) => {
            let (number, _) = split_once_char(v.as_str(), '/');
            parse_u32(number.as_str())
        },
        None => None,
    }
}

/// The track that the metadata `t` of the file at `path` describe, if they
/// describe one.
pub fn parse_tags(t: &AvTags, path: &str) -> (r: Option<Track>)
    ensures
        r.deep_view() == av_track(*t, path@),
{
    let track_no = track_number(&t.track);
    track_from_tags(
        String::from_str(path),
        copy_text(&t.title),
        track_no,
        copy_text(&t.album),
        copy_text(&t.album_artist),
        copy_text(&t.artist),
    )
}

/// The track of the file at `path` from its container metadata, or else from
/// the metadata of the first of its streams that describes one.
pub fn parse_metadata(container: &AvTags, streams: &Vec<AvTags>, path: &str) -> (r: Option<
    Track,
>)
    ensures
        r.deep_view() == match av_track(*container, path@) {
            Some(t) => Some(t),
            None => first_track(streams@, path@),
        },
{
    let found = parse_tags(container, path);
    if found.is_some() {
        return found;
    }
    let n = streams.len();
    let mut i: usize = 0;
    assert(streams@.skip(0) =~= streams@);
    while i < n
        invariant
            av_track(*container, path@) is None,
            i <= n,
            n == streams@.len(),
            first_track(streams@, path@) == first_track(streams@.skip(i as int), path@),
        decreases n - i,
    {
        proof {
            assert(streams@.skip(i as int)[0] == streams@[i as int]);
            assert(streams@.skip(i as int).drop_first() =~= streams@.skip(i + 1));
        }
        let found = parse_tags(&streams[i], path);
        if found.is_some() {
            return found;
        }
        i += 1;
    }
    assert(streams@.skip(n as int).len() == 0);
    None
}

} // verus!
