//! The library: every track filed by artist, then album, then track number.

use vstd::prelude::*;
use crate::keyed::{keyed_map, lemma_keyed_absent, lemma_keyed_at, lemma_keyed_push, lemma_keyed_update};
use crate::track::{Track, TrackView};

verus! {

/// Where a track sits in its album.
#[derive(Debug, Clone, Copy, PartialEq, Eq, Hash, Structural)]
pub struct TrackKey {
    pub track: u32,
    pub disc: Option<u32>,
}

/// What the library keeps of a track: its file, relative to the library's
/// root, and its title.
#[derive(Debug)]
pub struct TrackEntry {
    pub path: String,
    pub title: String,
}

/// The value of a [`TrackEntry`].
pub struct EntryView {
    pub path: Seq<char>,
    pub title: Seq<char>,
}

impl View for TrackEntry {
    type V = EntryView;

    open spec fn view(&self) -> EntryView {
        EntryView { path: self.path@, title: self.title@ }
    }
}

/// The tracks of one album.
pub type AlbumMap = Map<TrackKey, EntryView>;

/// The albums of one artist.
pub type ArtistMap = Map<Seq<char>, AlbumMap>;

/// Every track: artist, then album, then track key.
pub type Catalog = Map<Seq<char>, ArtistMap>;

/// The value of a [`Library`].
pub struct LibraryView {
    /// The directory that the library indexes.
    pub root: Seq<char>,
    pub artists: Catalog,
}

/// `c` with an album `album` under the artist `artist`: what was there stays,
/// and an album or artist that was missing is added with nothing in it.
pub open spec fn with_album(c: Catalog, artist: Seq<char>, album: Seq<char>) -> Catalog {
    let albums = if c.contains_key(artist) {
        c[artist]
    } else {
        Map::empty()
    };
    let tracks = if albums.contains_key(album) {
        albums[album]
    } else {
        Map::empty()
    };
    c.insert(artist, albums.insert(album, tracks))
}

/// `c` with `entry` filed under `artist`, `album` and `key`, replacing what
/// was filed there.
pub open spec fn with_track(
    c: Catalog,
    artist: Seq<char>,
    album: Seq<char>,
    key: TrackKey,
    entry: EntryView,
) -> Catalog {
    let c1 = with_album(c, artist, album);
    c1.insert(artist, c1[artist].insert(album, c1[artist][album].insert(key, entry)))
}

/// The key under which a track with number `track_no` is filed.
pub open spec fn key_of(track_no: u32) -> TrackKey {
    TrackKey { track: track_no, disc: None }
}

/// The catalog after filing the track `t`, whose path relative to the root is
/// `rel` when it lies under the root. A track outside the root is not filed,
/// but its artist and album are still added.
pub open spec fn after_add(c: Catalog, t: TrackView, rel: Option<Seq<char>>) -> Catalog {
    match rel {
        Some(rel) => with_track(
            c,
            t.artist,
            t.album,
            key_of(t.track_no),
            EntryView { path: rel, title: t.title },
        ),
        None => with_album(c, t.artist, t.album),
    }
}

/// The entry filed in `c` under `artist`, `album` and `key`, if any.
pub open spec fn catalog_get(c: Catalog, artist: Seq<char>, album: Seq<char>, key: TrackKey) -> Option<
    EntryView,
> {
    if c.contains_key(artist) && c[artist].contains_key(album) && c[artist][album].contains_key(
        key,
    ) {
        Some(c[artist][album][key])
    } else {
        None
    }
}

/// Read after write: once a track that lies under the root is filed, its
/// artist, album and track number look up its entry.
pub proof fn lemma_add_then_lookup(c: Catalog, t: TrackView, rel: Seq<char>)
    ensures
        catalog_get(after_add(c, t, Some(rel)), t.artist, t.album, key_of(t.track_no)) == Some(
            EntryView { path: rel, title: t.title },
        ),
{
}

/// Filing a track changes no entry under another artist, album or key; and a
/// track outside the root changes no entry at all.
pub proof fn lemma_add_keeps_other_entries(
    c: Catalog,
    t: TrackView,
    rel: Option<Seq<char>>,
    artist: Seq<char>,
    album: Seq<char>,
    key: TrackKey,
)
    requires
        rel is None || artist != t.artist || album != t.album || key != key_of(t.track_no),
    ensures
        catalog_get(after_add(c, t, rel), artist, album, key) == catalog_get(c, artist, album, key),
{
}

/// Filing a track removes no artist and no album, and its own artist and
/// album are present afterwards, whether or not the track lies under the root.
pub proof fn lemma_add_keeps_names(c: Catalog, t: TrackView, rel: Option<Seq<char>>)
    ensures
        forall|a: Seq<char>| #[trigger]
            c.contains_key(a) ==> after_add(c, t, rel).contains_key(a),
        forall|a: Seq<char>, b: Seq<char>|
            c.contains_key(a) && #[trigger] c[a].contains_key(b) ==> after_add(
                c,
                t,
                rel,
            )[a].contains_key(b),
        after_add(c, t, rel).contains_key(t.artist),
        after_add(c, t, rel)[t.artist].contains_key(t.album),
{
}

/// Filing the same track twice gives the library that filing it once gives.
pub proof fn lemma_add_twice(c: Catalog, t: TrackView, rel: Option<Seq<char>>)
    ensures
        after_add(after_add(c, t, rel), t, rel) == after_add(c, t, rel),
{
    let once = after_add(c, t, rel);
    let twice = after_add(once, t, rel);
    assert(twice[t.artist][t.album] =~= once[t.artist][t.album]);
    assert(twice[t.artist] =~= once[t.artist]);
    assert(twice =~= once);
}

/// Two tracks can be filed in either order, unless both lie under the root
/// and are filed under the same artist, album and key with different entries.
pub proof fn lemma_add_commutes(
    c: Catalog,
    t1: TrackView,
    r1: Option<Seq<char>>,
    t2: TrackView,
    r2: Option<Seq<char>>,
)
    requires
        !(r1 is Some && r2 is Some && t1.artist == t2.artist && t1.album == t2.album
            && t1.track_no == t2.track_no && (r1 != r2 || t1.title != t2.title)),
    ensures
        after_add(after_add(c, t1, r1), t2, r2) == after_add(after_add(c, t2, r2), t1, r1),
{
    let x = after_add(after_add(c, t1, r1), t2, r2);
    let y = after_add(after_add(c, t2, r2), t1, r1);
    assert forall|a: Seq<char>| #[trigger] x.contains_key(a) implies x[a] == y[a] by {
        assert forall|b: Seq<char>| #[trigger] x[a].contains_key(b) implies x[a][b] == y[a][b] by {
            assert(x[a][b] =~= y[a][b]);
        }
        assert(x[a] =~= y[a]);
    }
    assert(x =~= y);
}

/// No key filed in `c` carries a disc number.
pub open spec fn discless(c: Catalog) -> bool {
    forall|a: Seq<char>, b: Seq<char>, k: TrackKey| #[trigger]
        catalog_get(c, a, b, k) is Some ==> k.disc is None
}

/// Filing a track keeps every key filed before, adds its own key exactly when
/// it lies under the root, and adds no other key.
pub proof fn lemma_add_key_set(
    c: Catalog,
    t: TrackView,
    rel: Option<Seq<char>>,
    artist: Seq<char>,
    album: Seq<char>,
    key: TrackKey,
)
    ensures
        catalog_get(after_add(c, t, rel), artist, album, key) is Some <==> (catalog_get(
            c,
            artist,
            album,
            key,
        ) is Some || (rel is Some && artist == t.artist && album == t.album && key == key_of(
            t.track_no,
        ))),
{
}

/// Filing a track adds no key with a disc number.
pub proof fn lemma_add_keeps_discless(c: Catalog, t: TrackView, rel: Option<Seq<char>>)
    requires
        discless(c),
    ensures
        discless(after_add(c, t, rel)),
{
    let d = after_add(c, t, rel);
    assert forall|a: Seq<char>, b: Seq<char>, k: TrackKey| #[trigger]
        catalog_get(d, a, b, k) is Some implies k.disc is None by {
        lemma_add_key_set(c, t, rel, a, b, k);
    }
}

/// The catalog after filing the tracks `ts` in order, and whether all were
/// filed: filing stops at the first track that does not lie under `root`,
/// whose artist and album are still added.
pub open spec fn after_add_all(c: Catalog, root: Seq<char>, ts: Seq<TrackView>) -> (Catalog, bool)
    decreases ts.len(),
{
    if ts.len() == 0 {
        (c, true)
    } else {
        let rel = path_strip_prefix(ts[0].path, root);
        let c1 = after_add(c, ts[0], rel);
        if rel is None {
            (c1, false)
        } else {
            after_add_all(c1, root, ts.drop_first())
        }
    }
}

/// The views of a sequence of tracks.
pub open spec fn track_views(ts: Seq<Track>) -> Seq<TrackView> {
    ts.map_values(|t: Track| t@)
}

/// One filed track: artist, album, key and entry.
pub type Row = (String, String, TrackKey, TrackEntry);

/// Whether some row of `rows` is filed under `at` (artist, album, key).
pub open spec fn listed(rows: Seq<Row>, at: (Seq<char>, Seq<char>, TrackKey)) -> bool {
    exists|p: int| 0 <= p < rows.len() && (rows[p].0@, rows[p].1@, rows[p].2) == at
}

/// The artist, album and key of row `p` of `rows`.
pub open spec fn row_key(rows: Seq<Row>, p: int) -> (Seq<char>, Seq<char>, TrackKey) {
    (rows[p].0@, rows[p].1@, rows[p].2)
}

/// No two rows of `rows` share an artist, album and key.
pub open spec fn rows_distinct(rows: Seq<Row>) -> bool {
    forall|p: int, q: int|
        0 <= p < q < rows.len() ==> #[trigger] row_key(rows, p) != #[trigger] row_key(rows, q)
}

/// Position `a` comes before position `b`, artist first, then album, then key.
spec fn before(a: (int, int, int), b: (int, int, int)) -> bool {
    a.0 < b.0 || (a.0 == b.0 && a.1 < b.1) || (a.0 == b.0 && a.1 == b.1 && a.2 < b.2)
}

/// Appending a row keeps every row listed.
proof fn lemma_listed_grows(rows: Seq<Row>, x: Row)
    ensures
        forall|at: (Seq<char>, Seq<char>, TrackKey)| #[trigger]
            listed(rows, at) ==> listed(rows.push(x), at),
{
    assert forall|at: (Seq<char>, Seq<char>, TrackKey)| #[trigger]
        listed(rows, at) implies listed(rows.push(x), at) by {
        let p = choose|p: int| 0 <= p < rows.len() && (rows[p].0@, rows[p].1@, rows[p].2) == at;
        assert(rows.push(x)[p] == rows[p]);
    }
}

/// Why a track was not filed.
#[derive(Debug, Clone, Copy, PartialEq, Eq, Structural)]
pub enum LibraryError {
    /// The track's file does not lie under the library's root.
    OutsideRoot,
}

/// The path of `path` relative to `base`, as `std::path::Path::strip_prefix`
/// finds it, when `base` is a prefix of `path`.
pub uninterp spec fn path_strip_prefix(path: Seq<char>, base: Seq<char>) -> Option<Seq<char>>;

/// A path component that `Path` keeps as written: not empty, without `/`,
/// and not `.`.
pub open spec fn plain_component(c: Seq<char>) -> bool {
    c.len() > 0 && !c.contains('/') && c != seq!['.']
}

/// Every one of `cs` is a plain component.
pub open spec fn plain_components(cs: Seq<Seq<char>>) -> bool {
    forall|i: int| 0 <= i < cs.len() ==> plain_component(#[trigger] cs[i])
}

/// The components `cs` joined with `/`.
pub open spec fn join_components(cs: Seq<Seq<char>>) -> Seq<char>
    decreases cs.len(),
{
    if cs.len() == 0 {
        Seq::empty()
    } else if cs.len() == 1 {
        cs[0]
    } else {
        join_components(cs.drop_last()) + seq!['/'] + cs.last()
    }
}

/// The absolute path whose components after the root are `cs`.
pub open spec fn absolute_path(cs: Seq<Seq<char>>) -> Seq<char> {
    seq!['/'] + join_components(cs)
}

/// `base` is the absolute path of the components `bs`, written with or without
/// a trailing `/`.
pub open spec fn written_as(base: Seq<char>, bs: Seq<Seq<char>>) -> bool {
    base == absolute_path(bs) || (bs.len() > 0 && base == absolute_path(bs) + seq!['/'])
}

/// The components `bs` begin the components `ps`.
pub open spec fn components_prefix(bs: Seq<Seq<char>>, ps: Seq<Seq<char>>) -> bool {
    bs.len() <= ps.len() && ps.take(bs.len() as int) == bs
}

/// Calls `std::path::Path::strip_prefix(path, base)` and keeps the remainder as
/// text. The contract claims that the result is the one that `path` and `base`
/// determine (`path_strip_prefix`), and, for absolute paths made of plain
/// components, what the documentation of `strip_prefix` says: paths are
/// compared component by component, a trailing `/` on `base` makes no
/// difference, and the remainder is the components of `path` after those of
/// `base`, joined with `/`; when `base`'s components do not begin `path`'s,
/// there is none. Paths with empty, `.` or other unusual components are left
/// unstated.
#[verifier::external_body]
fn strip_prefix_of(path: &str, base: &str) -> (r: Option<String>)
    ensures
        r.deep_view() == path_strip_prefix(path@, base@),
        forall|bs: Seq<Seq<char>>, ps: Seq<Seq<char>>|
            #![trigger absolute_path(bs), absolute_path(ps)]
            plain_components(bs) && plain_components(ps) && path@ == absolute_path(ps)
                && written_as(base@, bs) ==> r.deep_view() == if components_prefix(bs, ps) {
                Some(join_components(ps.skip(bs.len() as int)))
            } else {
                None::<Seq<char>>
            },
{
    Some(std::path::Path::new(path).strip_prefix(base).ok()?.to_string_lossy().into_owned())
}

struct Album {
    name: String,
    keys: Vec<TrackKey>,
    entries: Vec<TrackEntry>,
}

spec fn entry_views(s: Seq<TrackEntry>) -> Seq<EntryView> {
    s.map_values(|e: TrackEntry| e@)
}

impl Album {
    spec fn wf(&self) -> bool {
        &&& self.keys@.len() == self.entries@.len()
        &&& self.keys@.no_duplicates()
        &&& forall|l: int| 0 <= l < self.keys@.len() ==> (#[trigger] self.keys@[l]).disc is None
    }

    spec fn tracks(&self) -> AlbumMap {
        keyed_map(self.keys@, entry_views(self.entries@))
    }

    fn empty(name: String) -> (r: Album)
        ensures
            r.wf(),
            r.name == name,
            r.tracks() == AlbumMap::empty(),
    {
        let r = Album { name, keys: Vec::new(), entries: Vec::new() };
        assert(r.tracks() =~= AlbumMap::empty());
        r
    }

    fn find(&self, key: TrackKey) -> (r: Option<usize>)
        ensures
            match r {
                Some(k) => k < self.keys@.len() && self.keys@[k as int] == key,
                None => forall|k: int| 0 <= k < self.keys@.len() ==> self.keys@[k] != key,
            },
    {
        let n = self.keys.len();
        let mut k: usize = 0;
        while k < n
            invariant
                k <= n,
                n == self.keys@.len(),
                forall|j: int| 0 <= j < k ==> self.keys@[j] != key,
            decreases n - k,
        {
            if self.keys[k] == key {
                return Some(k);
            }
            k += 1;
        }
        None
    }

    fn insert(&mut self, key: TrackKey, entry: TrackEntry)
        requires
            old(self).wf(),
            key.disc is None,
        ensures
            final(self).wf(),
            final(self).name == old(self).name,
            final(self).tracks() == old(self).tracks().insert(key, entry@),
    {
        let ghost ev = entry@;
        match self.find(key) {
            Some(k) => {
                self.entries.set(k, entry);
                proof {
                    assert(entry_views(self.entries@) =~= entry_views(old(self).entries@).update(
                        k as int,
                        ev,
                    ));
                    lemma_keyed_update(self.keys@, entry_views(old(self).entries@), k as int, ev);
                }
            },
            None => {
                self.keys.push(key);
                self.entries.push(entry);
                proof {
                    assert(entry_views(self.entries@) =~= entry_views(old(self).entries@).push(ev));
                    lemma_keyed_push(old(self).keys@, entry_views(old(self).entries@), key, ev);
                }
            },
        }
    }
}

struct Artist {
    name: String,
    albums: Vec<Album>,
}

spec fn album_names(s: Seq<Album>) -> Seq<Seq<char>> {
    s.map_values(|a: Album| a.name@)
}

spec fn album_maps(s: Seq<Album>) -> Seq<AlbumMap> {
    s.map_values(|a: Album| a.tracks())
}

impl Artist {
    spec fn wf(&self) -> bool {
        &&& album_names(self.albums@).no_duplicates()
        &&& forall|j: int| 0 <= j < self.albums@.len() ==> (#[trigger] self.albums@[j]).wf()
    }

    spec fn albums(&self) -> ArtistMap {
        keyed_map(album_names(self.albums@), album_maps(self.albums@))
    }

    fn empty(name: String) -> (r: Artist)
        ensures
            r.wf(),
            r.name == name,
            r.albums() == ArtistMap::empty(),
    {
        let r = Artist { name, albums: Vec::new() };
        assert(album_names(r.albums@) =~= Seq::empty());
        assert(r.albums() =~= ArtistMap::empty());
        r
    }

    fn find(&self, name: &String) -> (r: Option<usize>)
        ensures
            match r {
                Some(j) => j < self.albums@.len() && self.albums@[j as int].name@ == name@,
                None => forall|j: int|
                    0 <= j < self.albums@.len() ==> album_names(self.albums@)[j] != name@,
            },
    {
        let n = self.albums.len();
        let mut j: usize = 0;
        while j < n
            invariant
                j <= n,
                n == self.albums@.len(),
                forall|i: int| 0 <= i < j ==> album_names(self.albums@)[i] != name@,
            decreases n - j,
        {
            if self.albums[j].name == *name {
                return Some(j);
            }
            j += 1;
        }
        None
    }

    /// The position of the album `name`, which is added empty if missing.
    fn album_index(&mut self, name: String) -> (j: usize)
        requires
            old(self).wf(),
        ensures
            final(self).wf(),
            final(self).name == old(self).name,
            j < final(self).albums@.len(),
            final(self).albums@[j as int].name@ == name@,
            final(self).albums() == old(self).albums().insert(
                name@,
                if old(self).albums().contains_key(name@) {
                    old(self).albums()[name@]
                } else {
                    AlbumMap::empty()
                },
            ),
    {
        let ghost nm = name@;
        match self.find(&name) {
            Some(j) => {
                proof {
                    lemma_keyed_at(album_names(self.albums@), album_maps(self.albums@), j as int);
                    assert(self.albums().insert(nm, self.albums()[nm]) =~= self.albums());
                }
                j
            },
            None => {
                let a = Album::empty(name);
                self.albums.push(a);
                proof {
                    let old_albums = old(self).albums@;
                    assert(album_names(self.albums@) =~= album_names(old_albums).push(nm));
                    assert(album_maps(self.albums@) =~= album_maps(old_albums).push(
                        AlbumMap::empty(),
                    ));
                    lemma_keyed_absent(album_names(old_albums), album_maps(old_albums), nm);
                    lemma_keyed_push(
                        album_names(old_albums),
                        album_maps(old_albums),
                        nm,
                        AlbumMap::empty(),
                    );
                    assert forall|i: int| 0 <= i < self.albums@.len() implies (
                    #[trigger] self.albums@[i]).wf() by {
                        if i < old_albums.len() {
                            assert(self.albums@[i] == old_albums[i]);
                        }
                    }
                }
                self.albums.len() - 1
            },
        }
    }
}

/// The artists of a library, each with its albums.
struct Shelf {
    artists: Vec<Artist>,
}

spec fn artist_names(s: Seq<Artist>) -> Seq<Seq<char>> {
    s.map_values(|a: Artist| a.name@)
}

spec fn artist_maps(s: Seq<Artist>) -> Seq<ArtistMap> {
    s.map_values(|a: Artist| a.albums())
}

impl Shelf {
    spec fn catalog(&self) -> Catalog {
        keyed_map(artist_names(self.artists@), artist_maps(self.artists@))
    }

    /// No artist twice, no album twice under an artist, no track key twice in
    /// an album, and no key with a disc number.
    spec fn wf(&self) -> bool {
        &&& artist_names(self.artists@).no_duplicates()
        &&& forall|i: int| 0 <= i < self.artists@.len() ==> (#[trigger] self.artists@[i]).wf()
    }

    fn new() -> (r: Shelf)
        ensures
            r.wf(),
            r.catalog() == Catalog::empty(),
    {
        let r = Shelf { artists: Vec::new() };
        assert(artist_names(r.artists@) =~= Seq::empty());
        assert(r.catalog() =~= Catalog::empty());
        r
    }

    fn find(&self, name: &String) -> (r: Option<usize>)
        ensures
            match r {
                Some(i) => i < self.artists@.len() && self.artists@[i as int].name@ == name@,
                None => forall|i: int|
                    0 <= i < self.artists@.len() ==> artist_names(self.artists@)[i] != name@,
            },
    {
        let n = self.artists.len();
        let mut i: usize = 0;
        while i < n
            invariant
                i <= n,
                n == self.artists@.len(),
                forall|j: int| 0 <= j < i ==> artist_names(self.artists@)[j] != name@,
            decreases n - i,
        {
            if self.artists[i].name == *name {
                return Some(i);
            }
            i += 1;
        }
        None
    }

    /// The position of the artist `name`, who is added with no albums if
    /// missing.
    fn artist_index(&mut self, name: String) -> (i: usize)
        requires
            old(self).wf(),
        ensures
            final(self).wf(),
            i < final(self).artists@.len(),
            final(self).artists@[i as int].name@ == name@,
            final(self).catalog() == old(self).catalog().insert(
                name@,
                if old(self).catalog().contains_key(name@) {
                    old(self).catalog()[name@]
                } else {
                    ArtistMap::empty()
                },
            ),
    {
        let ghost nm = name@;
        match self.find(&name) {
            Some(i) => {
                proof {
                    lemma_keyed_at(artist_names(self.artists@), artist_maps(self.artists@), i as int);
                    assert(self.catalog().insert(nm, self.catalog()[nm]) =~= self.catalog());
                }
                i
            },
            None => {
                let a = Artist::empty(name);
                self.artists.push(a);
                proof {
                    let old_artists = old(self).artists@;
                    assert(artist_names(self.artists@) =~= artist_names(old_artists).push(nm));
                    assert(artist_maps(self.artists@) =~= artist_maps(old_artists).push(
                        ArtistMap::empty(),
                    ));
                    lemma_keyed_absent(artist_names(old_artists), artist_maps(old_artists), nm);
                    lemma_keyed_push(
                        artist_names(old_artists),
                        artist_maps(old_artists),
                        nm,
                        ArtistMap::empty(),
                    );
                    assert forall|i: int| 0 <= i < self.artists@.len() implies (
                    #[trigger] self.artists@[i]).wf() by {
                        if i < old_artists.len() {
                            assert(self.artists@[i] == old_artists[i]);
                        }
                    }
                }
                self.artists.len() - 1
            },
        }
    }

    fn file(&mut self, tr: Track, rel: Option<String>) -> (r: Result<
        (),
        LibraryError,
    >)
        requires
            old(self).wf(),
        ensures
            final(self).wf(),
            final(self).catalog() == after_add(old(self).catalog(), tr@, rel.deep_view()),
            r is Ok <==> rel is Some,
            r is Err ==> r == Err::<(), LibraryError>(LibraryError::OutsideRoot),
    {
        let ghost t = tr@;
        let ghost old_cat = old(self).catalog();
        let Track { path: _, artist, album, track_no, title } = tr;
        let i = self.artist_index(artist);
        let ghost arts1 = self.artists@;
        let ghost cat1 = self.catalog();
        let mut ar = Artist::empty(String::new());
        self.artists.set_and_swap(i, &mut ar);
        proof {
            lemma_keyed_at(artist_names(arts1), artist_maps(arts1), i as int);
            assert(arts1[i as int].wf());
        }
        let ghost a0 = ar.albums();
        let j = ar.album_index(album);
        let ghost albs1 = ar.albums@;
        let ghost a1 = ar.albums();
        let ghost t0 = a1[t.album];
        proof {
            lemma_keyed_at(album_names(albs1), album_maps(albs1), j as int);
            assert(album_names(albs1)[j as int] == t.album);
        }
        let ghost rel_v = rel.deep_view();
        let result = match rel {
            None => Err(LibraryError::OutsideRoot),
            Some(rel) => {
                let ghost ev = EntryView { path: rel@, title: t.title };
                let mut al = Album::empty(String::new());
                ar.albums.set_and_swap(j, &mut al);
                proof {
                    assert(al == albs1[j as int]);
                    assert(albs1[j as int].wf());
                }
                al.insert(TrackKey { track: track_no, disc: None }, TrackEntry { path: rel, title });
                let ghost al_new = al;
                ar.albums.set_and_swap(j, &mut al);
                proof {
                    assert(ar.albums@ =~= albs1.update(j as int, al_new));
                    assert(album_names(ar.albums@) =~= album_names(albs1));
                    assert(album_maps(ar.albums@) =~= album_maps(albs1).update(
                        j as int,
                        t0.insert(key_of(t.track_no), ev),
                    ));
                    lemma_keyed_update(
                        album_names(albs1),
                        album_maps(albs1),
                        j as int,
                        t0.insert(key_of(t.track_no), ev),
                    );
                    assert forall|k: int| 0 <= k < ar.albums@.len() implies (
                    #[trigger] ar.albums@[k]).wf() by {
                        if k != j {
                            assert(ar.albums@[k] == albs1[k]);
                        }
                    }
                }
                Ok(())
            },
        };
        let ghost ar_new = ar;
        self.artists.set_and_swap(i, &mut ar);
        proof {
            assert(self.artists@ =~= arts1.update(i as int, ar_new));
            assert(artist_names(self.artists@) =~= artist_names(arts1));
            assert(artist_maps(self.artists@) =~= artist_maps(arts1).update(i as int, ar_new.albums()));
            lemma_keyed_update(artist_names(arts1), artist_maps(arts1), i as int, ar_new.albums());
            assert forall|k: int| 0 <= k < self.artists@.len() implies (
            #[trigger] self.artists@[k]).wf() by {
                if k != i {
                    assert(self.artists@[k] == arts1[k]);
                }
            }
            let c1 = with_album(old_cat, t.artist, t.album);
            assert(c1 =~= cat1.insert(t.artist, a1));
            match rel_v {
                Some(r) => {
                    let ev = EntryView { path: r, title: t.title };
                    assert(c1[t.artist][t.album] == t0);
                    assert(ar_new.albums() =~= a1.insert(t.album, t0.insert(key_of(t.track_no), ev)));
                    assert(self.catalog() =~= with_track(
                        old_cat,
                        t.artist,
                        t.album,
                        key_of(t.track_no),
                        ev,
                    ));
                },
                None => {
                    assert(self.catalog() =~= c1);
                },
            }
        }
        result
    }

    fn lookup(&self, artist: &str, album: &str, key: TrackKey) -> (r: Option<&TrackEntry>)
        requires
            self.wf(),
        ensures
            match r {
                Some(e) => catalog_get(self.catalog(), artist@, album@, key) == Some(e@),
                None => catalog_get(self.catalog(), artist@, album@, key) is None,
            },
    {
        let ghost arts = self.artists@;
        let artist_name = String::from_str(artist);
        match self.find(&artist_name) {
            None => {
                proof {
                    lemma_keyed_absent(artist_names(arts), artist_maps(arts), artist@);
                }
                None
            },
            Some(i) => {
                let ar = &self.artists[i];
                proof {
                    lemma_keyed_at(artist_names(arts), artist_maps(arts), i as int);
                    assert(arts[i as int].wf());
                }
                let album_name = String::from_str(album);
                match ar.find(&album_name) {
                    None => {
                        proof {
                            lemma_keyed_absent(album_names(ar.albums@), album_maps(ar.albums@), album@);
                        }
                        None
                    },
                    Some(j) => {
                        let al = &ar.albums[j];
                        proof {
                            lemma_keyed_at(album_names(ar.albums@), album_maps(ar.albums@), j as int);
                            assert(ar.albums@[j as int].wf());
                        }
                        match al.find(key) {
                            None => {
                                proof {
                                    lemma_keyed_absent(al.keys@, entry_views(al.entries@), key);
                                }
                                None
                            },
                            Some(k) => {
                                proof {
                                    lemma_keyed_at(al.keys@, entry_views(al.entries@), k as int);
                                }
                                Some(&al.entries[k])
                            },
                        }
                    },
                }
            },
        }
    }
    spec fn valid_pos(&self, i: int, j: int, l: int) -> bool {
        &&& 0 <= i < self.artists@.len()
        &&& 0 <= j < self.artists@[i].albums@.len()
        &&& 0 <= l < self.artists@[i].albums@[j].keys@.len()
    }

    spec fn row_at(&self, i: int, j: int, l: int) -> (Seq<char>, Seq<char>, TrackKey) {
        (
            self.artists@[i].name@,
            self.artists@[i].albums@[j].name@,
            self.artists@[i].albums@[j].keys@[l],
        )
    }

    /// The entry at a position is filed under the names and key there.
    proof fn lemma_at_pos(&self, i: int, j: int, l: int)
        requires
            self.wf(),
            self.valid_pos(i, j, l),
        ensures
            catalog_get(self.catalog(), self.row_at(i, j, l).0, self.row_at(i, j, l).1, self.row_at(i, j, l).2)
                == Some(self.artists@[i].albums@[j].entries@[l]@),
    {
        lemma_keyed_at(artist_names(self.artists@), artist_maps(self.artists@), i);
        let ar = self.artists@[i];
        assert(ar.wf());
        lemma_keyed_at(album_names(ar.albums@), album_maps(ar.albums@), j);
        let al = ar.albums@[j];
        assert(al.wf());
        lemma_keyed_at(al.keys@, entry_views(al.entries@), l);
    }

    /// Two positions with the same names and key are the same position.
    proof fn lemma_row_at_injective(&self, a: (int, int, int), b: (int, int, int))
        requires
            self.wf(),
            self.valid_pos(a.0, a.1, a.2),
            self.valid_pos(b.0, b.1, b.2),
            self.row_at(a.0, a.1, a.2) == self.row_at(b.0, b.1, b.2),
        ensures
            a == b,
    {
        let names = artist_names(self.artists@);
        assert(names[a.0] == self.artists@[a.0].name@);
        assert(names[b.0] == self.artists@[b.0].name@);
        assert(a.0 == b.0);
        let ar = self.artists@[a.0];
        assert(ar.wf());
        let anames = album_names(ar.albums@);
        assert(anames[a.1] == ar.albums@[a.1].name@);
        assert(anames[b.1] == ar.albums@[b.1].name@);
        assert(a.1 == b.1);
        assert(ar.albums@[a.1].wf());
    }

    /// Every filed key is at some position.
    proof fn lemma_pos_of(&self, a: Seq<char>, b: Seq<char>, k: TrackKey) -> (pos: (int, int, int))
        requires
            self.wf(),
            catalog_get(self.catalog(), a, b, k) is Some,
        ensures
            self.valid_pos(pos.0, pos.1, pos.2),
            self.row_at(pos.0, pos.1, pos.2) == (a, b, k),
    {
        let names = artist_names(self.artists@);
        let i = names.index_of(a);
        assert(0 <= i < names.len() && names[i] == a);
        lemma_keyed_at(names, artist_maps(self.artists@), i);
        let ar = self.artists@[i];
        let anames = album_names(ar.albums@);
        let j = anames.index_of(b);
        assert(0 <= j < anames.len() && anames[j] == b);
        lemma_keyed_at(anames, album_maps(ar.albums@), j);
        let al = ar.albums@[j];
        let l = al.keys@.index_of(k);
        assert(0 <= l < al.keys@.len() && al.keys@[l] == k);
        (i, j, l)
    }

    fn entries(&self) -> (rows: Vec<Row>)
        requires
            self.wf(),
        ensures
            forall|p: int|
                0 <= p < rows@.len() ==> catalog_get(
                    self.catalog(),
                    #[trigger] rows@[p].0@,
                    rows@[p].1@,
                    rows@[p].2,
                ) == Some(rows@[p].3@),
            forall|a: Seq<char>, b: Seq<char>, k: TrackKey| #[trigger]
                catalog_get(self.catalog(), a, b, k) is Some ==> listed(rows@, (a, b, k)),
            rows_distinct(rows@),
    {
        let mut rows: Vec<Row> = Vec::new();
        // The position each row was taken from, in the order of the rows.
        let ghost mut ps: Seq<(int, int, int)> = Seq::empty();
        let n = self.artists.len();
        let mut i: usize = 0;
        while i < n
            invariant
                self.wf(),
                n == self.artists@.len(),
                i <= n,
                ps.len() == rows@.len(),
                forall|p: int|
                    0 <= p < rows@.len() ==> self.valid_pos(ps[p].0, ps[p].1, ps[p].2) && row_key(
                        rows@,
                        p,
                    ) == self.row_at(ps[p].0, ps[p].1, ps[p].2) && #[trigger] ps[p].0 < i,
                forall|p: int, q: int|
                    0 <= p < q < rows@.len() ==> before(#[trigger] ps[p], #[trigger] ps[q]),
                forall|p: int|
                    0 <= p < rows@.len() ==> catalog_get(
                        self.catalog(),
                        #[trigger] rows@[p].0@,
                        rows@[p].1@,
                        rows@[p].2,
                    ) == Some(rows@[p].3@),
                forall|i2: int, j2: int, l2: int|
                    #![trigger self.row_at(i2, j2, l2)]
                    self.valid_pos(i2, j2, l2) && i2 < i ==> listed(rows@, self.row_at(i2, j2, l2)),
            decreases n - i,
        {
            let ar = &self.artists[i];
            let m = ar.albums.len();
            let mut j: usize = 0;
            while j < m
                invariant
                    self.wf(),
                    n == self.artists@.len(),
                    i < n,
                    *ar == self.artists@[i as int],
                    m == ar.albums@.len(),
                    j <= m,
                    ps.len() == rows@.len(),
                    forall|p: int|
                        0 <= p < rows@.len() ==> self.valid_pos(ps[p].0, ps[p].1, ps[p].2)
                            && row_key(rows@, p) == self.row_at(ps[p].0, ps[p].1, ps[p].2)
                            && before(#[trigger] ps[p], (i as int, j as int, 0)),
                    forall|p: int, q: int|
                        0 <= p < q < rows@.len() ==> before(#[trigger] ps[p], #[trigger] ps[q]),
                    forall|p: int|
                        0 <= p < rows@.len() ==> catalog_get(
                            self.catalog(),
                            #[trigger] rows@[p].0@,
                            rows@[p].1@,
                            rows@[p].2,
                        ) == Some(rows@[p].3@),
                    forall|i2: int, j2: int, l2: int|
                        #![trigger self.row_at(i2, j2, l2)]
                        self.valid_pos(i2, j2, l2) && (i2 < i || (i2 == i && j2 < j)) ==> listed(
                            rows@,
                            self.row_at(i2, j2, l2),
                        ),
                decreases m - j,
            {
                let al = &ar.albums[j];
                let q = al.keys.len();
                proof {
                    assert(self.artists@[i as int].wf());
                    assert(al.wf());
                }
                let mut l: usize = 0;
                while l < q
                    invariant
                        self.wf(),
                        n == self.artists@.len(),
                        i < n,
                        *ar == self.artists@[i as int],
                        m == ar.albums@.len(),
                        j < m,
                        *al == ar.albums@[j as int],
                        q == al.keys@.len(),
                        al.wf(),
                        l <= q,
                        ps.len() == rows@.len(),
                        forall|p: int|
                            0 <= p < rows@.len() ==> self.valid_pos(ps[p].0, ps[p].1, ps[p].2)
                                && row_key(rows@, p) == self.row_at(ps[p].0, ps[p].1, ps[p].2)
                                && before(#[trigger] ps[p], (i as int, j as int, l as int)),
                        forall|p: int, q: int|
                            0 <= p < q < rows@.len() ==> before(#[trigger] ps[p], #[trigger] ps[q]),
                        forall|p: int|
                            0 <= p < rows@.len() ==> catalog_get(
                                self.catalog(),
                                #[trigger] rows@[p].0@,
                                rows@[p].1@,
                                rows@[p].2,
                            ) == Some(rows@[p].3@),
                        forall|i2: int, j2: int, l2: int|
                            #![trigger self.row_at(i2, j2, l2)]
                            self.valid_pos(i2, j2, l2) && (i2 < i || (i2 == i && j2 < j) || (i2
                                == i && j2 == j && l2 < l)) ==> listed(
                                rows@,
                                self.row_at(i2, j2, l2),
                            ),
                    decreases q - l,
                {
                    let e = &al.entries[l];
                    let row: Row = (
                        ar.name.clone(),
                        al.name.clone(),
                        al.keys[l],
                        TrackEntry { path: e.path.clone(), title: e.title.clone() },
                    );
                    proof {
                        lemma_listed_grows(rows@, row);
                        self.lemma_at_pos(i as int, j as int, l as int);
                    }
                    let ghost old_rows = rows@;
                    let ghost old_ps = ps;
                    rows.push(row);
                    proof {
                        ps = ps.push((i as int, j as int, l as int));
                        assert(rows@ == old_rows.push(row));
                        assert forall|p: int| 0 <= p < rows@.len() implies catalog_get(
                            self.catalog(),
                            #[trigger] rows@[p].0@,
                            rows@[p].1@,
                            rows@[p].2,
                        ) == Some(rows@[p].3@) by {
                            if p < old_rows.len() {
                                assert(rows@[p] == old_rows[p]);
                            }
                        }
                        assert forall|p: int|
                            0 <= p < rows@.len() implies self.valid_pos(ps[p].0, ps[p].1, ps[p].2)
                            && row_key(rows@, p) == self.row_at(ps[p].0, ps[p].1, ps[p].2)
                            && before(#[trigger] ps[p], (i as int, j as int, l + 1)) by {
                            if p < old_rows.len() {
                                assert(rows@[p] == old_rows[p]);
                                assert(ps[p] == old_ps[p]);
                                assert(row_key(rows@, p) == row_key(old_rows, p));
                            }
                        }
                        assert forall|p: int, q: int|
                            0 <= p < q < rows@.len() implies before(#[trigger] ps[p], #[trigger] ps[q]) by {
                            assert(ps[p] == old_ps[p]);
                            if q < old_rows.len() {
                                assert(ps[q] == old_ps[q]);
                            }
                        }
                        assert(listed(rows@, self.row_at(i as int, j as int, l as int))) by {
                            assert(rows@[old_rows.len() as int] == row);
                        }
                    }
                    l += 1;
                }
                j += 1;
            }
            i += 1;
        }
        proof {
            assert forall|a: Seq<char>, b: Seq<char>, k: TrackKey| #[trigger]
                catalog_get(self.catalog(), a, b, k) is Some implies listed(rows@, (a, b, k)) by {
                let pos = self.lemma_pos_of(a, b, k);
                assert(self.row_at(pos.0, pos.1, pos.2) == (a, b, k));
            }
            assert forall|p: int, q: int| 0 <= p < q < rows@.len() implies #[trigger] row_key(
                rows@,
                p,
            ) != #[trigger] row_key(rows@, q) by {
                assert(before(ps[p], ps[q]));
                if row_key(rows@, p) == row_key(rows@, q) {
                    self.lemma_row_at_injective(ps[p], ps[q]);
                }
            }
        }
        rows
    }

    proof fn lemma_discless(&self)
        requires
            self.wf(),
        ensures
            discless(self.catalog()),
    {
        let c = self.catalog();
        assert forall|a: Seq<char>, b: Seq<char>, k: TrackKey| #[trigger]
            catalog_get(c, a, b, k) is Some implies k.disc is None by {
            let names = artist_names(self.artists@);
            let i = names.index_of(a);
            assert(0 <= i < names.len() && names[i] == a);
            lemma_keyed_at(names, artist_maps(self.artists@), i);
            let ar = self.artists@[i];
            assert(ar.wf());
            let anames = album_names(ar.albums@);
            let j = anames.index_of(b);
            assert(0 <= j < anames.len() && anames[j] == b);
            lemma_keyed_at(anames, album_maps(ar.albums@), j);
            let al = ar.albums@[j];
            assert(al.wf());
            let l = al.keys@.index_of(k);
            assert(0 <= l < al.keys@.len() && al.keys@[l] == k);
        }
    }
}

/// A music library: the tracks found under one directory, filed by artist,
/// album and track number.
pub struct Library {
    path: String,
    shelf: Shelf,
}

impl View for Library {
    type V = LibraryView;

    closed spec fn view(&self) -> LibraryView {
        LibraryView { root: self.path@, artists: self.shelf.catalog() }
    }
}

impl Default for Library {
    /// An empty library whose root is the empty path.
    fn default() -> (r: Library)
        ensures
            r@.root == Seq::<char>::empty(),
            r@.artists == Catalog::empty(),
    {
        Library::new(String::new())
    }
}

impl Library {
    /// No artist twice, no album twice under an artist, no track key twice in
    /// an album, and no key with a disc number.
    #[verifier::type_invariant]
    spec fn inv(self) -> bool {
        self.shelf.wf()
    }

    /// An empty library of the tracks under `path`.
    pub fn new(path: String) -> (r: Library)
        ensures
            r@.root == path@,
            r@.artists == Catalog::empty(),
    {
        Library { path, shelf: Shelf::new() }
    }

    /// Files the track `tr`, whose path relative to the library's root is
    /// `rel`, or `None` when it does not lie under the root. The artist and
    /// album are added either way; the track itself only with a relative path,
    /// and its entry replaces one filed under the same key.
    pub fn add_relative(&mut self, tr: Track, rel: Option<String>) -> (r: Result<
        (),
        LibraryError,
    >)
        ensures
            final(self)@.root == old(self)@.root,
            final(self)@.artists == after_add(old(self)@.artists, tr@, rel.deep_view()),
            discless(final(self)@.artists),
            r is Ok <==> rel is Some,
            r is Err ==> r == Err::<(), LibraryError>(LibraryError::OutsideRoot),
    {
        proof {
            use_type_invariant(&*self);
        }
        let mut shelf = Shelf::new();
        std::mem::swap(&mut self.shelf, &mut shelf);
        let r = shelf.file(tr, rel);
        proof {
            shelf.lemma_discless();
        }
        self.shelf = shelf;
        r
    }

    /// Files the track `tr` under its artist, album and track number, with
    /// its path made relative to the library's root. A track whose file does
    /// not lie under the root is refused with `OutsideRoot`, after its artist
    /// and album have been added.
    pub fn add(&mut self, tr: Track) -> (r: Result<(), LibraryError>)
        ensures
            final(self)@.root == old(self)@.root,
            final(self)@.artists == after_add(
                old(self)@.artists,
                tr@,
                path_strip_prefix(tr.path@, old(self)@.root),
            ),
            discless(final(self)@.artists),
            r is Ok <==> path_strip_prefix(tr.path@, old(self)@.root) is Some,
            r is Err ==> r == Err::<(), LibraryError>(LibraryError::OutsideRoot),
            forall|bs: Seq<Seq<char>>, ps: Seq<Seq<char>>|
                #![trigger absolute_path(bs), absolute_path(ps)]
                plain_components(bs) && plain_components(ps) && tr.path@ == absolute_path(ps)
                    && written_as(old(self)@.root, bs) ==> (r is Ok <==> components_prefix(bs, ps))
                    && (components_prefix(bs, ps) ==> catalog_get(
                    final(self)@.artists,
                    tr.artist@,
                    tr.album@,
                    key_of(tr.track_no),
                ) == Some(EntryView { path: join_components(ps.skip(bs.len() as int)), title: tr.title@ })),
    {
        let ghost t = tr@;
        let ghost root = self@.root;
        let ghost c0 = self@.artists;
        let rel = strip_prefix_of(tr.path.as_str(), self.path.as_str());
        let ghost rel_v = rel.deep_view();
        let r = self.add_relative(tr, rel);
        proof {
            assert forall|bs: Seq<Seq<char>>, ps: Seq<Seq<char>>|
                #![trigger absolute_path(bs), absolute_path(ps)]
                plain_components(bs) && plain_components(ps) && t.path == absolute_path(ps)
                    && written_as(root, bs) && components_prefix(bs, ps) implies catalog_get(
                self@.artists,
                t.artist,
                t.album,
                key_of(t.track_no),
            ) == Some(EntryView { path: join_components(ps.skip(bs.len() as int)), title: t.title }) by {
                lemma_add_then_lookup(c0, t, join_components(ps.skip(bs.len() as int)));
            }
        }
        r
    }

    /// Files the tracks `tracks` in order, stopping at the first one whose
    /// file does not lie under the root, which is refused with `OutsideRoot`
    /// after its artist and album have been added.
    pub fn add_all(&mut self, tracks: Vec<Track>) -> (r: Result<(), LibraryError>)
        ensures
            final(self)@.root == old(self)@.root,
            final(self)@.artists == after_add_all(
                old(self)@.artists,
                old(self)@.root,
                track_views(tracks@),
            ).0,
            discless(final(self)@.artists),
            r is Ok <==> after_add_all(old(self)@.artists, old(self)@.root, track_views(tracks@)).1,
            r is Err ==> r == Err::<(), LibraryError>(LibraryError::OutsideRoot),
    {
        proof {
            use_type_invariant(&*self);
            self.shelf.lemma_discless();
        }
        let ghost c0 = self@.artists;
        let ghost root = self@.root;
        let ghost ts = track_views(tracks@);
        let mut rest = tracks;
        while rest.len() > 0
            invariant
                self@.root == root,
                root == old(self)@.root,
                c0 == old(self)@.artists,
                ts == track_views(tracks@),
                discless(self@.artists),
                after_add_all(c0, root, ts) == after_add_all(
                    self@.artists,
                    root,
                    track_views(rest@),
                ),
            decreases rest.len(),
        {
            let ghost before = rest@;
            let tr = rest.remove(0);
            proof {
                assert(track_views(rest@) =~= track_views(before).drop_first());
                assert(track_views(before)[0] == tr@);
            }
            match self.add(tr) {
                Ok(()) => {},
                Err(e) => {
                    return Err(e);
                },
            }
        }
        Ok(())
    }

    /// Every filed track as (artist, album, key, entry): each row is filed
    /// in the library, every filed track has a row, and no two rows share an
    /// artist, album and key.
    pub fn entries(&self) -> (rows: Vec<Row>)
        ensures
            forall|p: int|
                0 <= p < rows@.len() ==> catalog_get(
                    self@.artists,
                    #[trigger] rows@[p].0@,
                    rows@[p].1@,
                    rows@[p].2,
                ) == Some(rows@[p].3@),
            forall|a: Seq<char>, b: Seq<char>, k: TrackKey| #[trigger]
                catalog_get(self@.artists, a, b, k) is Some ==> listed(rows@, (a, b, k)),
            rows_distinct(rows@),
    {
        proof {
            use_type_invariant(self);
        }
        self.shelf.entries()
    }

    /// The directory that the library indexes.
    pub fn root(&self) -> (r: &str)
        ensures
            r@ == self@.root,
    {
        self.path.as_str()
    }

    /// The entry filed under `artist`, `album` and `key`, if any.
    pub fn lookup(&self, artist: &str, album: &str, key: TrackKey) -> (r: Option<&TrackEntry>)
        ensures
            match r {
                Some(e) => catalog_get(self@.artists, artist@, album@, key) == Some(e@),
                None => catalog_get(self@.artists, artist@, album@, key) is None,
            },
    {
        proof {
            use_type_invariant(self);
        }
        self.shelf.lookup(artist, album, key)
    }
}

} // verus!
