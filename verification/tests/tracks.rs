use lmmp::avf::{parse_metadata, track_number, AvTags};
use lmmp::comments::CommentMap;
use lmmp::mp3::{self, Id3Tags};
use lmmp::mp4::{self, Mp4Tags};
use lmmp::parsers::{OpusParser, VorbParser};
use lmmp::track::{track_from_tags, Format};
use lmmp::vorb;

fn s(x: &str) -> Option<String> {
    Some(x.to_string())
}

#[test]
fn album_artist_is_preferred_over_artist() {
    let t = track_from_tags("p".to_string(), s("T"), Some(3), s("A"), s("AA"), s("Ar")).unwrap();
    assert_eq!(t.artist, "AA");
    assert_eq!(t.title, "T");
    assert_eq!(t.album, "A");
    assert_eq!(t.track_no, 3);
    assert_eq!(t.path, "p");
}

#[test]
fn artist_is_used_without_album_artist() {
    let t = track_from_tags("p".to_string(), s("T"), Some(3), s("A"), None, s("Ar")).unwrap();
    assert_eq!(t.artist, "Ar");
}

#[test]
fn missing_field_gives_no_track() {
    assert!(track_from_tags("p".to_string(), None, Some(3), s("A"), s("AA"), None).is_none());
    assert!(track_from_tags("p".to_string(), s("T"), None, s("A"), s("AA"), None).is_none());
    assert!(track_from_tags("p".to_string(), s("T"), Some(1), None, s("AA"), None).is_none());
    assert!(track_from_tags("p".to_string(), s("T"), Some(1), s("A"), None, None).is_none());
}

#[test]
fn mp3_tags() {
    let t = mp3::parse_tags(
        Id3Tags { title: s("Song"), track: Some(7), album: s("LP"), album_artist: None, artist: s("Singer") },
        "/m/song.mp3",
    )
    .unwrap();
    assert_eq!(t.track_no, 7);
    assert_eq!(t.artist, "Singer");
    assert_eq!(t.path, "/m/song.mp3");
}

#[test]
fn mp4_tags_take_track_number_not_total() {
    let t = mp4::parse_tags(
        Mp4Tags {
            title: s("Song"),
            track: (Some(4), Some(12)),
            album: s("LP"),
            album_artist: s("Group"),
            artist: s("Singer"),
        },
        "/m/song.m4a",
    )
    .unwrap();
    assert_eq!(t.track_no, 4);
    assert_eq!(t.artist, "Group");
    let none = mp4::parse_tags(
        Mp4Tags { title: s("Song"), track: (None, Some(12)), album: s("LP"), album_artist: None, artist: s("S") },
        "/m/song.m4a",
    );
    assert!(none.is_none());
}

#[test]
fn av_track_number_before_slash() {
    assert_eq!(track_number(&s("3/12")), Some(3));
    assert_eq!(track_number(&s("05")), Some(5));
    assert_eq!(track_number(&s("+9")), Some(9));
    assert_eq!(track_number(&s("x/12")), None);
    assert_eq!(track_number(&s("/12")), None);
    assert_eq!(track_number(&None), None);
}

fn av(track: Option<String>, title: Option<String>) -> AvTags {
    AvTags { track, title, album: s("Album"), album_artist: None, artist: s("Artist") }
}

#[test]
fn av_container_metadata_first_then_streams() {
    let t = parse_metadata(&av(s("1"), s("Container")), &vec![av(s("2"), s("Stream"))], "/f.ogg").unwrap();
    assert_eq!(t.title, "Container");
    let t = parse_metadata(
        &av(None, s("Container")),
        &vec![av(None, s("S0")), av(s("2/3"), s("S1")), av(s("3"), s("S2"))],
        "/f.ogg",
    )
    .unwrap();
    assert_eq!(t.title, "S1");
    assert_eq!(t.track_no, 2);
    assert!(parse_metadata(&av(None, s("C")), &vec![av(s("z"), s("S"))], "/f.ogg").is_none());
}

#[test]
fn vorbis_comments_make_track() {
    let list = vec![
        "TITLE=Night".to_string(),
        "ARTIST=Player".to_string(),
        "ALBUM=Dark".to_string(),
        "TRACKNUMBER=12".to_string(),
        "COMMENT".to_string(),
    ];
    let t = VorbParser::parse_comments(&list, "/m/n.ogg").unwrap();
    assert_eq!(t.title, "Night");
    assert_eq!(t.artist, "Player");
    assert_eq!(t.album, "Dark");
    assert_eq!(t.track_no, 12);
}

#[test]
fn vorbis_later_comment_wins_and_value_stops_at_second_equals() {
    let list = vec![
        "TITLE=Old".to_string(),
        "TITLE=New=Extra".to_string(),
        "ALBUMARTIST=Band".to_string(),
        "ARTIST=Player".to_string(),
        "ALBUM=Dark".to_string(),
        "TRACKNUMBER=1".to_string(),
    ];
    let t = VorbParser::parse_comments(&list, "/m/n.ogg").unwrap();
    assert_eq!(t.title, "New");
    assert_eq!(t.artist, "Band");
}

#[test]
fn vorbis_bad_track_number_gives_no_track() {
    let list = vec![
        "TITLE=T".to_string(),
        "ARTIST=P".to_string(),
        "ALBUM=D".to_string(),
        "TRACKNUMBER=1/10".to_string(),
    ];
    assert!(VorbParser::parse_comments(&list, "/m/n.ogg").is_none());
}

#[test]
fn opus_pairs_make_track() {
    let pairs = vec![
        ("TITLE".to_string(), "Song".to_string()),
        ("ARTIST".to_string(), "Voice".to_string()),
        ("ALBUM".to_string(), "Set".to_string()),
        ("TRACKNUMBER".to_string(), "4".to_string()),
    ];
    let t = OpusParser::parse_comments(pairs, "/m/s.opus").unwrap();
    assert_eq!(t.track_no, 4);
    assert_eq!(t.artist, "Voice");
}

#[test]
fn vorb_parse_tags_is_case_sensitive() {
    let pairs = vec![
        ("title".to_string(), "Song".to_string()),
        ("ARTIST".to_string(), "Voice".to_string()),
        ("ALBUM".to_string(), "Set".to_string()),
        ("TRACKNUMBER".to_string(), "4".to_string()),
    ];
    assert!(vorb::parse_tags(CommentMap::from_pairs(pairs), "/p").is_none());
}

#[test]
fn format_by_extension() {
    assert_eq!(Format::from_extension("mp3"), Some(Format::Mp3));
    assert_eq!(Format::from_extension("m4a"), Some(Format::Mp4));
    assert_eq!(Format::from_extension("ogg"), Some(Format::Avf));
    assert_eq!(Format::from_extension("flac"), Some(Format::Avf));
    assert_eq!(Format::from_extension("opus"), Some(Format::Avf));
    assert_eq!(Format::from_extension("MP3"), None);
    assert_eq!(Format::from_extension("wav"), None);
}

#[test]
fn format_of_path_reads_extension() {
    assert_eq!(Format::of_path("/music/a/song.mp3"), Some(Format::Mp3));
    assert_eq!(Format::of_path("/music/a/song.tar.flac"), Some(Format::Avf));
    assert_eq!(Format::of_path("/music/a/song"), None);
    assert_eq!(Format::of_path("/music/.mp3"), None);
    assert_eq!(Format::of_path("/music/a/cover.jpg"), None);
}

#[test]
fn opus_pair_order_does_not_matter() {
    let a = vec![
        ("TITLE".to_string(), "Song".to_string()),
        ("ALBUMARTIST".to_string(), "Band".to_string()),
        ("ALBUM".to_string(), "Set".to_string()),
        ("TRACKNUMBER".to_string(), "4".to_string()),
    ];
    let mut b = a.clone();
    b.reverse();
    let ta = OpusParser::parse_comments(a, "/m/s.opus").unwrap();
    let tb = OpusParser::parse_comments(b, "/m/s.opus").unwrap();
    assert_eq!((ta.title, ta.artist, ta.album, ta.track_no), (tb.title, tb.artist, tb.album, tb.track_no));
}
