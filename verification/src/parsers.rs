//! The tag readers, one per kind of file, and what each makes of the tags it
//! reads.

use vstd::prelude::*;
use crate::comments::{pair_texts, pairs_map, texts, CommentMap};
use crate::track::Track;
use crate::vorb::{parse_tags, vorbis_track};
use crate::vorbfile::{comments_map, comments_to_map};

verus! {

/// The reader of Ogg Vorbis files through libvorbisfile.
pub struct VorbParser;

/// The reader of FLAC files.
pub struct FlacParser;

/// The reader of MP4 audio files.
pub struct Mp4Parser;

/// The reader of Opus files.
pub struct OpusParser;

impl VorbParser {
    /// The track that the comment header `comments` (`NAME=value` strings,
    /// in order) of the file at `path` describes.
    pub fn parse_comments(comments: &Vec<String>, path: &str) -> (r: Option<Track>)
        ensures
            r.deep_view() == vorbis_track(comments_map(texts(comments@)), path@),
    {
        parse_tags(comments_to_map(comments), path)
    }
}

impl OpusParser {
    /// The track that the user comments `comments` (name and value pairs) of
    /// the Opus file at `path` describe.
    pub fn parse_comments(comments: Vec<(String, String)>, path: &str) -> (r: Option<Track>)
        ensures
            r.deep_view() == vorbis_track(pairs_map(pair_texts(comments@)), path@),
    {
        parse_tags(CommentMap::from_pairs(comments), path)
    }
}

} // verus!
