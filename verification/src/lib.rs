//! A music library indexer: it reads the tags of audio files and files each
//! track under its artist and album.

pub mod keyed;
pub mod text;
pub mod track;
pub mod library;
pub mod comments;
pub mod vorbfile;
pub mod vorb;
pub mod mp3;
pub mod mp4;
pub mod avf;
pub mod parsers;
pub mod ui;
