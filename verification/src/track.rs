//! A track as the tags of an audio file describe it, and the choice of tag
//! reader by file extension.

use vstd::prelude::*;

verus! {

/// One track: the file it is stored in and what its tags say of it.
#[derive(Debug)]
pub struct Track {
    pub path: String,
    /// The album artist where the tags name one, else the track artist.
    pub artist: String,
    pub album: String,
    pub track_no: u32,
    pub title: String,
}

/// The value of a [`Track`].
pub struct TrackView {
    pub path: Seq<char>,
    pub artist: Seq<char>,
    pub album: Seq<char>,
    pub track_no: u32,
    pub title: Seq<char>,
}

impl View for Track {
    type V = TrackView;

    open spec fn view(&self) -> TrackView {
        TrackView {
            path: self.path@,
            artist: self.artist@,
            album: self.album@,
            track_no: self.track_no,
            title: self.title@,
        }
    }
}

impl DeepView for Track {
    type V = TrackView;

    open spec fn deep_view(&self) -> TrackView {
        self@
    }
}

/// The track that tags with these fields describe: one exists when the title,
/// the track number, the album, and an album artist or (failing that) an
/// artist are all present.
pub open spec fn tagged_track(
    path: Seq<char>,
    title: Option<Seq<char>>,
    track_no: Option<u32>,
    album: Option<Seq<char>>,
    album_artist: Option<Seq<char>>,
    artist: Option<Seq<char>>,
) -> Option<TrackView> {
    let who = if album_artist is Some {
        album_artist
    } else {
        artist
    };
    match (title, track_no, album, who) {
        (Some(title), Some(track_no), Some(album), Some(artist)) => Some(
            TrackView { path, artist, album, track_no, title },
        ),
        _ => None,
    }
}

/// `r` is the track of the file at `path` that these tag fields give: one
/// exists exactly when the title, the number, the album, and an album artist
/// or an artist are present; it takes the path, title, number and album
/// given, and its artist is the album artist when there is one, else the
/// artist.
pub open spec fn describes(
    r: Option<TrackView>,
    path: Seq<char>,
    title: Option<Seq<char>>,
    track_no: Option<u32>,
    album: Option<Seq<char>>,
    album_artist: Option<Seq<char>>,
    artist: Option<Seq<char>>,
) -> bool {
    &&& (r is Some <==> (title is Some && track_no is Some && album is Some && (album_artist is Some
        || artist is Some)))
    &&& (r matches Some(t) ==> {
        &&& t.path == path
        &&& title == Some(t.title)
        &&& track_no == Some(t.track_no)
        &&& album == Some(t.album)
        &&& (album_artist matches Some(aa) ==> t.artist == aa)
        &&& (album_artist is None ==> artist == Some(t.artist))
    })
}

/// The track that tag fields describe takes each of its fields from the tag
/// of the same kind, and the album artist wins over the artist.
pub proof fn lemma_tagged_track_describes(
    path: Seq<char>,
    title: Option<Seq<char>>,
    track_no: Option<u32>,
    album: Option<Seq<char>>,
    album_artist: Option<Seq<char>>,
    artist: Option<Seq<char>>,
)
    ensures
        describes(
            tagged_track(path, title, track_no, album, album_artist, artist),
            path,
            title,
            track_no,
            album,
            album_artist,
            artist,
        ),
{
}

/// Builds the track that tags with these fields describe, if they describe one.
pub fn track_from_tags(
    path: String,
    title: Option<String>,
    track_no: Option<u32>,
    album: Option<String>,
    album_artist: Option<String>,
    artist: Option<String>,
) -> (r: Option<Track>)
    ensures
        r.deep_view() == tagged_track(
            path@,
            title.deep_view(),
            track_no,
            album.deep_view(),
            album_artist.deep_view(),
            artist.deep_view(),
        ),
{
    let who = match album_artist {
        Some(a) => Some(a),
        None => artist,
    };
    match (title, track_no, album, who) {
        (Some(title), Some(track_no), Some(album), Some(artist)) => Some(
            Track { path, artist, album, track_no, title },
        ),
        _ => None,
    }
}

/// The tag reader that a file is read with.
#[derive(Debug, Clone, Copy, PartialEq, Eq, Structural)]
pub enum Format {
    /// ID3 tags (`.mp3`).
    Mp3,
    /// MP4 metadata (`.m4a`).
    Mp4,
    /// Container metadata read through libavformat (`.ogg`, `.flac`, `.opus`).
    Avf,
}

/// The reader for a file with extension `ext`, if it is one that is read.
pub open spec fn format_for(ext: Seq<char>) -> Option<Format> {
    if ext == "mp3"@ {
        Some(Format::Mp3)
    } else if ext == "m4a"@ {
        Some(Format::Mp4)
    } else if ext == "ogg"@ || ext == "flac"@ || ext == "opus"@ {
        Some(Format::Avf)
    } else {
        None
    }
}

/// The extension of `path` as `std::path::Path::extension` finds it, when it
/// is valid text.
pub uninterp spec fn path_extension(path: Seq<char>) -> Option<Seq<char>>;

/// Calls `std::path::Path::extension` on `path` and keeps the extension when
/// it is valid UTF-8. The contract claims only that the result is the one that
/// `path` alone determines (`path_extension`); how the extension is found is
/// not stated.
#[verifier::external_body]
fn extension_of(path: &str) -> (r: Option<String>)
    ensures
        r.deep_view() == path_extension(path@),
{
    Some(std::path::Path::new(path).extension()?.to_str()?.to_string())
}

impl Format {
    /// The reader for a file with extension `ext`; `None` for files that are
    /// not read.
    pub fn from_extension(ext: &str) -> (r: Option<Format>)
        ensures
            r == format_for(ext@),
    {
        proof {
            reveal_strlit("mp3");
            reveal_strlit("m4a");
            reveal_strlit("ogg");
            reveal_strlit("flac");
            reveal_strlit("opus");
        }
        let e = String::from_str(ext);
        if e == String::from_str("mp3") {
            Some(Format::Mp3)
        } else if e == String::from_str("m4a") {
            Some(Format::Mp4)
        } else if e == String::from_str("ogg") || e == String::from_str("flac") || e
            == String::from_str("opus") {
            Some(Format::Avf)
        } else {
            None
        }
    }

    /// The reader for the file at `path`: by its extension, and `None` when it
    /// has none.
    pub fn of_path(path: &str) -> (r: Option<Format>)
        ensures
            r == match path_extension(path@) {
                Some(ext) => format_for(ext),
                None => None,
            },
    {
        match extension_of(path) {
            Some(ext) => Format::from_extension(ext.as_str()),
            None => None,
        }
    }
}

} // verus!
