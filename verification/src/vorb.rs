//! Tracks from Vorbis comments, the tags of Ogg Vorbis and Opus files.

use vstd::prelude::*;
use crate::comments::{field, CommentMap};
use crate::text::{parse_u32, parse_u32_spec};
use crate::track::{describes, lemma_tagged_track_describes, tagged_track, track_from_tags, Track, TrackView};

verus! {

/// The track number that a `TRACKNUMBER` value gives, if it is a decimal `u32`.
pub open spec fn number_field(value: Option<Seq<char>>) -> Option<u32> {
    match value {
        Some(v) => parse_u32_spec(v),
        None => None,
    }
}

/// The track that the comments `m` describe: `TITLE`, `TRACKNUMBER`, `ALBUM`,
/// and `ALBUMARTIST` or else `ARTIST`.
pub open spec fn vorbis_track(m: Map<Seq<char>, Seq<char>>, path: Seq<char>) -> Option<TrackView> {
    tagged_track(
        path,
        field(m, "TITLE"@),
        number_field(field(m, "TRACKNUMBER"@)),
        field(m, "ALBUM"@),
        field(m, "ALBUMARTIST"@),
        field(m, "ARTIST"@),
    )
}

/// Vorbis comments give the track whose title, album and number are their
/// `TITLE`, `ALBUM` and `TRACKNUMBER` values, and whose artist is the
/// `ALBUMARTIST` value when there is one, else the `ARTIST` value.
pub proof fn lemma_vorbis_track(m: Map<Seq<char>, Seq<char>>, path: Seq<char>)
    ensures
        describes(
            vorbis_track(m, path),
            path,
            field(m, "TITLE"@),
            number_field(field(m, "TRACKNUMBER"@)),
            field(m, "ALBUM"@),
            field(m, "ALBUMARTIST"@),
            field(m, "ARTIST"@),
        ),
{
    lemma_tagged_track_describes(
        path,
        field(m, "TITLE"@),
        number_field(field(m, "TRACKNUMBER"@)),
        field(m, "ALBUM"@),
        field(m, "ALBUMARTIST"@),
        field(m, "ARTIST"@),
    );
}

/// The track that the comments `m` of the file at `path` describe, if they
/// describe one.
pub fn parse_tags(m: CommentMap, path: &str) -> (r: Option<Track>)
    ensures
        r.deep_view() == vorbis_track(m@, path@),
{
    proof {
        reveal_strlit("TITLE");
        reveal_strlit("TRACKNUMBER");
        reveal_strlit("ALBUM");
        reveal_strlit("ALBUMARTIST");
        reveal_strlit("ARTIST");
    }
    let ghost m0 = m@;
    assert("ALBUM"@.len() == 5 && "ALBUMARTIST"@.len() == 11 && "ARTIST"@.len() == 6);
    assert("TITLE"@.len() == 5 && "TRACKNUMBER"@.len() == 11);
    assert("TITLE"@[0] != "ALBUM"@[0] && "TRACKNUMBER"@[0] != "ALBUMARTIST"@[0]);
    let mut m = m;
    let album = m.remove("ALBUM");
    assert(album.deep_view() == field(m0, "ALBUM"@));
    let album_artist = m.remove("ALBUMARTIST");
    assert(album_artist.deep_view() == field(m0, "ALBUMARTIST"@));
    let artist = m.remove("ARTIST");
    assert(artist.deep_view() == field(m0, "ARTIST"@));
    let title = m.remove("TITLE");
    assert(title.deep_view() == field(m0, "TITLE"@));
    let number = m.remove("TRACKNUMBER");
    assert(number.deep_view() == field(m0, "TRACKNUMBER"@));
    let track_no = match number {
        Some(n) => parse_u32(n.as_str()),
        None => None,
    };
    track_from_tags(String::from_str(path), title, track_no, album, album_artist, artist)
}

} // verus!
