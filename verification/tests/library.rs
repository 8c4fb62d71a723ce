use lmmp::library::{Library, LibraryError, TrackKey};
use lmmp::track::Track;

fn track(path: &str, artist: &str, album: &str, track_no: u32, title: &str) -> Track {
    Track {
        path: path.to_string(),
        artist: artist.to_string(),
        album: album.to_string(),
        track_no,
        title: title.to_string(),
    }
}

fn key(n: u32) -> TrackKey {
    TrackKey { track: n, disc: None }
}

#[test]
fn new_library_is_empty() {
    let lib = Library::new("/music".to_string());
    assert_eq!(lib.root(), "/music");
    assert!(lib.lookup("Anyone", "Anything", key(1)).is_none());
}

#[test]
fn add_then_lookup_gives_relative_path_and_title() {
    let mut lib = Library::new("/music".to_string());
    let r = lib.add(track("/music/Band/Record/01.mp3", "Band", "Record", 1, "Opening"));
    assert_eq!(r, Ok(()));
    let e = lib.lookup("Band", "Record", key(1)).expect("track is filed");
    assert_eq!(e.path, "Band/Record/01.mp3");
    assert_eq!(e.title, "Opening");
}

#[test]
fn add_outside_root_is_refused() {
    let mut lib = Library::new("/music".to_string());
    let r = lib.add(track("/elsewhere/02.mp3", "Band", "Record", 2, "Second"));
    assert_eq!(r, Err(LibraryError::OutsideRoot));
    assert!(lib.lookup("Band", "Record", key(2)).is_none());
}

#[test]
fn add_relative_uses_given_path() {
    let mut lib = Library::new("/music".to_string());
    let r = lib.add_relative(
        track("/music/x.ogg", "A", "B", 3, "T"),
        Some("x.ogg".to_string()),
    );
    assert_eq!(r, Ok(()));
    assert_eq!(lib.lookup("A", "B", key(3)).unwrap().path, "x.ogg");
    let r = lib.add_relative(track("/music/y.ogg", "A", "B", 4, "U"), None);
    assert_eq!(r, Err(LibraryError::OutsideRoot));
    assert!(lib.lookup("A", "B", key(4)).is_none());
}

#[test]
fn later_track_with_same_number_replaces_earlier() {
    let mut lib = Library::new("/m".to_string());
    lib.add(track("/m/a.mp3", "X", "Y", 1, "First")).unwrap();
    lib.add(track("/m/b.mp3", "X", "Y", 1, "Second")).unwrap();
    let e = lib.lookup("X", "Y", key(1)).unwrap();
    assert_eq!(e.title, "Second");
    assert_eq!(e.path, "b.mp3");
}

#[test]
fn adding_keeps_other_entries() {
    let mut lib = Library::new("/m".to_string());
    lib.add(track("/m/1.mp3", "X", "Y", 1, "One")).unwrap();
    lib.add(track("/m/2.mp3", "X", "Y", 2, "Two")).unwrap();
    lib.add(track("/m/3.mp3", "X", "Z", 1, "Three")).unwrap();
    lib.add(track("/m/4.mp3", "W", "Y", 1, "Four")).unwrap();
    assert_eq!(lib.lookup("X", "Y", key(1)).unwrap().title, "One");
    assert_eq!(lib.lookup("X", "Y", key(2)).unwrap().title, "Two");
    assert_eq!(lib.lookup("X", "Z", key(1)).unwrap().title, "Three");
    assert_eq!(lib.lookup("W", "Y", key(1)).unwrap().title, "Four");
    assert!(lib.lookup("W", "Z", key(1)).is_none());
    assert!(lib.lookup("X", "Y", TrackKey { track: 1, disc: Some(1) }).is_none());
}

#[test]
fn adding_twice_is_adding_once() {
    let mut lib = Library::new("/m".to_string());
    lib.add(track("/m/1.mp3", "X", "Y", 1, "One")).unwrap();
    lib.add(track("/m/1.mp3", "X", "Y", 1, "One")).unwrap();
    let e = lib.lookup("X", "Y", key(1)).unwrap();
    assert_eq!(e.title, "One");
    assert_eq!(e.path, "1.mp3");
}

#[test]
fn order_of_adds_does_not_matter() {
    let mut a = Library::new("/m".to_string());
    a.add(track("/m/1.mp3", "X", "Y", 1, "One")).unwrap();
    a.add(track("/m/2.mp3", "X", "Y", 2, "Two")).unwrap();
    let mut b = Library::new("/m".to_string());
    b.add(track("/m/2.mp3", "X", "Y", 2, "Two")).unwrap();
    b.add(track("/m/1.mp3", "X", "Y", 1, "One")).unwrap();
    for n in [1, 2] {
        let ea = a.lookup("X", "Y", key(n)).unwrap();
        let eb = b.lookup("X", "Y", key(n)).unwrap();
        assert_eq!(ea.path, eb.path);
        assert_eq!(ea.title, eb.title);
    }
}

#[test]
fn add_all_files_in_order() {
    let mut lib = Library::new("/m".to_string());
    let r = lib.add_all(vec![
        track("/m/1.mp3", "X", "Y", 1, "One"),
        track("/m/1b.mp3", "X", "Y", 1, "Again"),
        track("/m/2.mp3", "X", "Z", 2, "Two"),
    ]);
    assert_eq!(r, Ok(()));
    assert_eq!(lib.lookup("X", "Y", key(1)).unwrap().title, "Again");
    assert_eq!(lib.lookup("X", "Z", key(2)).unwrap().path, "2.mp3");
}

#[test]
fn add_all_stops_at_first_track_outside_root() {
    let mut lib = Library::new("/m".to_string());
    let r = lib.add_all(vec![
        track("/m/1.mp3", "X", "Y", 1, "One"),
        track("/other/2.mp3", "X", "Y", 2, "Two"),
        track("/m/3.mp3", "X", "Y", 3, "Three"),
    ]);
    assert_eq!(r, Err(LibraryError::OutsideRoot));
    assert!(lib.lookup("X", "Y", key(1)).is_some());
    assert!(lib.lookup("X", "Y", key(2)).is_none());
    assert!(lib.lookup("X", "Y", key(3)).is_none());
}

#[test]
fn entries_list_every_filed_track_without_disc() {
    let mut lib = Library::new("/m".to_string());
    lib.add(track("/m/1.mp3", "X", "Y", 1, "One")).unwrap();
    lib.add(track("/m/2.mp3", "X", "Y", 2, "Two")).unwrap();
    lib.add(track("/m/3.mp3", "W", "Z", 1, "Three")).unwrap();
    let _ = lib.add(track("/o/4.mp3", "V", "U", 4, "Four"));
    let mut rows: Vec<(String, String, u32, String, String)> = lib
        .entries()
        .into_iter()
        .map(|(a, b, k, e)| {
            assert_eq!(k.disc, None);
            (a, b, k.track, e.path, e.title)
        })
        .collect();
    rows.sort();
    assert_eq!(
        rows,
        vec![
            ("W".to_string(), "Z".to_string(), 1, "3.mp3".to_string(), "Three".to_string()),
            ("X".to_string(), "Y".to_string(), 1, "1.mp3".to_string(), "One".to_string()),
            ("X".to_string(), "Y".to_string(), 2, "2.mp3".to_string(), "Two".to_string()),
        ]
    );
}

#[test]
fn default_library_is_empty() {
    let lib = Library::default();
    assert_eq!(lib.root(), "");
    assert!(lib.entries().is_empty());
}

#[test]
fn entries_have_no_row_twice() {
    let mut lib = Library::new("/m".to_string());
    lib.add(track("/m/1.mp3", "X", "Y", 1, "One")).unwrap();
    lib.add(track("/m/1.mp3", "X", "Y", 1, "One")).unwrap();
    lib.add(track("/m/2.mp3", "X", "Y", 1, "Other")).unwrap();
    let rows = lib.entries();
    assert_eq!(rows.len(), 1);
    assert_eq!(rows[0].3.title, "Other");
}
